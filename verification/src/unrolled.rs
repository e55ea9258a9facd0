//! The network, spelled out: every convolution of a pass, what it reads, and what
//! becomes of its result.

use vstd::prelude::*;

use crate::arith::fifth_is;
use crate::arith::plus_is;
use crate::arith::residual_is;
use crate::arith::times_is;
use crate::arith::Arith;
use crate::forward::conv_is;
use crate::forward::host_kernels;
use crate::forward::host_net;
use crate::forward::residuals;
use crate::forward::sums;
use crate::graph::Net;
use crate::grid::cell;
use crate::model::dense_layer;
use crate::model::Model;
use crate::shuffle::unshuffled;
use crate::shuffle::upsampled;
use crate::taps::activated;
use crate::taps::finished;
use crate::taps::Taps;
use crate::trace::lemma_taps;

verus! {

/// The values of one dense block: its five convolutions and its result.
pub struct DenseTape<T> {
    pub x1: Seq<T>,
    pub x2: Seq<T>,
    pub x3: Seq<T>,
    pub x4: Seq<T>,
    pub x5: Seq<T>,
    pub out: Seq<T>,
}

/// The values of one block: its three dense blocks and its result.
pub struct BlockTape<T> {
    pub rdb1: DenseTape<T>,
    pub rdb2: DenseTape<T>,
    pub rdb3: DenseTape<T>,
    pub out: Seq<T>,
}

/// The values of a whole pass.
pub struct Tape<T> {
    pub first: Seq<T>,
    pub blocks: Seq<BlockTape<T>>,
    pub xs: Seq<Seq<T>>,
    pub body: Seq<T>,
    pub trunk: Seq<T>,
    pub up1: Seq<T>,
    pub up2: Seq<T>,
    pub hr: Seq<T>,
}

/// The five convolutions of a dense block on `x`, numbered from `l` on: each reads the
/// block's input and all earlier results, four are activated, and a fifth of the last
/// is added to the input.
pub open spec fn dense_block_ran<T>(net: Net<T>, l: int, x: Seq<T>, d: DenseTape<T>) -> bool {
    let (nf, ng, h, w) = (net.g.num_feat as int, net.g.num_grow_ch as int, net.h, net.w);
    &&& (net.k.conv)(l, x, nf, h, w, true, d.x1)
    &&& (net.k.conv)(l + 1, x + d.x1, nf + ng, h, w, true, d.x2)
    &&& (net.k.conv)(l + 2, x + d.x1 + d.x2, nf + 2 * ng, h, w, true, d.x3)
    &&& (net.k.conv)(l + 3, x + d.x1 + d.x2 + d.x3, nf + 3 * ng, h, w, true, d.x4)
    &&& (net.k.conv)(l + 4, x + d.x1 + d.x2 + d.x3 + d.x4, nf + 4 * ng, h, w, false, d.x5)
    &&& (net.k.residual)(d.x5, x, d.out)
}

/// The three dense blocks of block `b` on `x`, and the residual over them.
pub open spec fn block_ran<T>(net: Net<T>, b: int, x: Seq<T>, t: BlockTape<T>) -> bool {
    &&& dense_block_ran(net, 15 * b + 1, x, t.rdb1)
    &&& dense_block_ran(net, 15 * b + 6, t.rdb1.out, t.rdb2)
    &&& dense_block_ran(net, 15 * b + 11, t.rdb2.out, t.rdb3)
    &&& (net.k.residual)(t.rdb3.out, x, t.out)
}

/// All blocks, each on the result of the one before: `xs` is what each begins with, and
/// the last one's result.
pub open spec fn blocks_ran<T>(net: Net<T>, xs: Seq<Seq<T>>, t: Seq<BlockTape<T>>) -> bool {
    &&& xs.len() == t.len() + 1
    &&& forall|b: int|
        0 <= b < t.len() ==> block_ran(net, b, xs[b], #[trigger] t[b]) && t[b].out == xs[b + 1]
}

/// The convolutions of a whole pass on an image: the first, on the image or, for the x2
/// model, on the unshuffled image; the blocks; the body's, whose result is added to the
/// first; two upsampled stages; and the two of the head.
pub open spec fn pass_ran<T>(
    net: Net<T>,
    image: Seq<T>,
    ih: int,
    iw: int,
    t: Tape<T>,
    out: Seq<T>,
) -> bool {
    let (g, h, w, n) = (net.g, net.h, net.w, net.g.num_block as int);
    let nf = g.num_feat as int;
    &&& g.scale == 2 ==> (net.k.conv)(
        0,
        unshuffled(image, g.in_ch as int, ih, iw),
        4 * g.in_ch,
        h,
        w,
        false,
        t.first,
    )
    &&& g.scale != 2 ==> (net.k.conv)(0, image, g.in_ch as int, h, w, false, t.first)
    &&& t.blocks.len() == n
    &&& t.xs[0] == t.first
    &&& blocks_ran(net, t.xs, t.blocks)
    &&& (net.k.conv)(15 * n + 1, t.xs[n], nf, h, w, false, t.body)
    &&& (net.k.join)(t.first, t.body, t.trunk)
    &&& (net.k.conv)(
        15 * n + 2,
        upsampled(t.trunk, nf, h, w),
        nf,
        2 * h,
        2 * w,
        true,
        t.up1,
    )
    &&& (net.k.conv)(
        15 * n + 3,
        upsampled(t.up1, nf, 2 * h, 2 * w),
        nf,
        4 * h,
        4 * w,
        true,
        t.up2,
    )
    &&& (net.k.conv)(15 * n + 4, t.up2, nf, 4 * h, 4 * w, true, t.hr)
    &&& (net.k.conv)(15 * n + 5, t.hr, nf, 4 * h, 4 * w, false, out)
}

proof fn lemma_dense_tape<T>(net: Net<T>, l: int, x: Seq<T>, out: Seq<T>) -> (d: DenseTape<T>)
    requires
        net.dense(l, x, out),
    ensures
        dense_block_ran(net, l, x, d),
        d.out == out,
{
    let (w4, x5) = choose|w: Seq<T>, v: Seq<T>|
        {
            &&& net.grown(l, x, 4, w)
            &&& #[trigger] net.gathers(l + 4, w, v)
            &&& net.residual(v, x, out)
        };
    let (w3, x4) = lemma_grown_tape(net, l, x, 4, w4);
    let (w2, x3) = lemma_grown_tape(net, l, x, 3, w3);
    let (w1, x2) = lemma_grown_tape(net, l, x, 2, w2);
    let (w0, x1) = lemma_grown_tape(net, l, x, 1, w1);
    DenseTape { x1, x2, x3, x4, x5, out }
}

pub(crate) proof fn lemma_grown_tape<T>(net: Net<T>, l: int, x: Seq<T>, n: nat, ws: Seq<T>) -> (r: (
    Seq<T>,
    Seq<T>,
))
    requires
        net.grown(l, x, n, ws),
        n > 0,
    ensures
        net.grown(l, x, (n - 1) as nat, r.0),
        n == 1 ==> r.0 == x,
        ws == r.0 + r.1,
        (net.k.conv)(
            l + n - 1,
            r.0,
            net.g.num_feat + (n - 1) * net.g.num_grow_ch,
            net.h,
            net.w,
            true,
            r.1,
        ),
{
    let (p, o) = choose|p: Seq<T>, o: Seq<T>|
        {
            &&& net.grown(l, x, (n - 1) as nat, p)
            &&& #[trigger] net.grows(l + n - 1, n - 1, p, o)
            &&& ws == p + o
        };
    if n == 1 {
        assert(net.grown(l, x, 0, p));
    }
    (p, o)
}

proof fn lemma_denses_tape<T>(net: Net<T>, b: int, x: Seq<T>, n: nat, out: Seq<T>) -> (r: (
    Seq<T>,
    DenseTape<T>,
))
    requires
        net.denses(b, x, n, out),
        n > 0,
    ensures
        net.denses(b, x, (n - 1) as nat, r.0),
        n == 1 ==> r.0 == x,
        dense_block_ran(net, 15 * b + 5 * n - 4, r.0, r.1),
        r.1.out == out,
{
    let p = choose|p: Seq<T>|
        {
            &&& net.denses(b, x, (n - 1) as nat, p)
            &&& #[trigger] net.dense(dense_layer(b, n - 1, 0), p, out)
        };
    if n == 1 {
        assert(net.denses(b, x, 0, p));
    }
    assert(dense_layer(b, n - 1, 0) == 15 * b + 5 * n - 4);
    (p, lemma_dense_tape(net, dense_layer(b, n - 1, 0), p, out))
}

pub(crate) proof fn lemma_block_tape<T>(net: Net<T>, b: int, x: Seq<T>, out: Seq<T>) -> (t: BlockTape<T>)
    requires
        net.rrdb(b, x, out),
    ensures
        block_ran(net, b, x, t),
        t.out == out,
{
    let x3 = choose|p: Seq<T>| net.denses(b, x, 3, p) && #[trigger] net.residual(p, x, out);
    let (x2, rdb3) = lemma_denses_tape(net, b, x, 3, x3);
    let (x1, rdb2) = lemma_denses_tape(net, b, x, 2, x2);
    let (x0, rdb1) = lemma_denses_tape(net, b, x, 1, x1);
    BlockTape { rdb1, rdb2, rdb3, out }
}

proof fn lemma_body_tape<T>(net: Net<T>, x: Seq<T>, n: nat, out: Seq<T>) -> (r: (
    Seq<Seq<T>>,
    Seq<BlockTape<T>>,
))
    requires
        net.body(x, n, out),
    ensures
        r.1.len() == n,
        blocks_ran(net, r.0, r.1),
        r.0[0] == x,
        r.0[n as int] == out,
    decreases n,
{
    if n == 0 {
        (seq![x], Seq::empty())
    } else {
        let p = choose|p: Seq<T>|
            net.body(x, (n - 1) as nat, p) && #[trigger] net.rrdb(n - 1, p, out);
        let (xs, f) = lemma_body_tape(net, x, (n - 1) as nat, p);
        let last = lemma_block_tape(net, n - 1, p, out);
        let (ys, t) = (xs.push(out), f.push(last));
        assert forall|b: int| 0 <= b < n implies block_ran(net, b, ys[b], #[trigger] t[b])
            && t[b].out == ys[b + 1] by {
            if b < n - 1 {
                assert(t[b] == f[b]);
            }
        }
        (ys, t)
    }
}

/// The trunk: the first convolution, what the blocks make of it, and the body's.
proof fn lemma_trunk_tape<T>(net: Net<T>, image: Seq<T>, ih: int, iw: int, out: Seq<T>) -> (r: (
    Seq<T>,
    Seq<T>,
    Seq<T>,
))
    requires
        net.trunk(image, ih, iw, out),
    ensures
        net.first(net.entered(image, ih, iw), r.0),
        net.body(r.0, net.g.num_block as nat, r.1),
        (net.k.conv)(
            15 * net.g.num_block + 1,
            r.1,
            net.g.num_feat as int,
            net.h,
            net.w,
            false,
            r.2,
        ),
        (net.k.join)(r.0, r.2, out),
{
    let n = net.g.num_block as nat;
    let l = 15 * net.g.num_block + 1;
    let (s, x) = choose|s: Seq<T>, x: Seq<T>|
        #[trigger] net.at_body(image, ih, iw, n, s, x) && net.closed(x, s, out);
    let f = choose|f: Seq<T>|
        #[trigger] net.feature(l, 1, x, false, f) && (net.k.join)(s, f, out);
    (s, x, f)
}

/// What follows the trunk: two upsampled stages and the first convolution of the head.
proof fn lemma_head_tape<T>(net: Net<T>, image: Seq<T>, ih: int, iw: int, out: Seq<T>) -> (r: (
    Seq<T>,
    Seq<T>,
    Seq<T>,
    Seq<T>,
))
    requires
        net.network(image, ih, iw, out),
    ensures
        ({
            let (h, w, l) = (net.h, net.w, 15 * net.g.num_block);
            let nf = net.g.num_feat as int;
            &&& net.trunk(image, ih, iw, r.0)
            &&& (net.k.conv)(l + 2, upsampled(r.0, nf, h, w), nf, 2 * h, 2 * w, true, r.1)
            &&& (net.k.conv)(
                l + 3,
                upsampled(r.1, nf, 2 * h, 2 * w),
                nf,
                4 * h,
                4 * w,
                true,
                r.2,
            )
            &&& (net.k.conv)(l + 4, r.2, nf, 4 * h, 4 * w, true, r.3)
            &&& (net.k.conv)(l + 5, r.3, nf, 4 * h, 4 * w, false, out)
        }),
{
    let l = 15 * net.g.num_block;
    let hr = choose|x: Seq<T>|
        #[trigger] net.high(image, ih, iw, x) && net.feature(l + 5, 4, x, false, out);
    let up2 = choose|z: Seq<T>|
        #[trigger] net.risen(image, ih, iw, 2, z) && net.feature(l + 4, 4, z, true, hr);
    let (trunk, up1) = choose|t: Seq<T>, u: Seq<T>|
        {
            &&& net.trunk(image, ih, iw, t)
            &&& #[trigger] net.up(0, 1, t, u)
            &&& net.up(1, 2, u, up2)
        };
    (trunk, up1, up2, hr)
}

/// The network on an image is these convolutions, in this order.
pub proof fn network_is_these_convolutions<T>(
    net: Net<T>,
    image: Seq<T>,
    ih: int,
    iw: int,
    out: Seq<T>,
) -> (t: Tape<T>)
    requires
        net.network(image, ih, iw, out),
    ensures
        pass_ran(net, image, ih, iw, t, out),
{
    let (trunk, up1, up2, hr) = lemma_head_tape(net, image, ih, iw, out);
    let (s, x, body) = lemma_trunk_tape(net, image, ih, iw, trunk);
    let (xs, blocks) = lemma_body_tape(net, s, net.g.num_block as nat, x);
    Tape { first: s, blocks, xs, body, trunk, up1, up2, hr }
}

/// On the host, a convolution of the network adds, to its bias, the products of its
/// weights and the pixels that lie in the image, tap by tap and channel by channel,
/// and is then rectified if asked for. The sums on the way are returned.
pub proof fn host_convolution_is_its_products<T, A: Arith<T>>(
    ops: &A,
    model: &Model<T>,
    l: int,
    src: Seq<T>,
    c_in: int,
    h: int,
    w: int,
    act: bool,
    out: Seq<T>,
    oc: int,
    y: int,
    x: int,
) -> (t: Seq<T>)
    requires
        (host_kernels(ops, model).conv)(l, src, c_in, h, w, act, out),
        0 <= c_in,
        0 <= oc < model.layer(l).c_out,
        0 <= y < h,
        0 <= x < w,
    ensures
        out.len() == model.layer(l).c_out * h * w,
        t.len() == 9 * c_in + 1,
        t[0] == model.layer(l).bias@[oc],
        forall|ky: int, kx: int, ci: int|
            0 <= ky < 3 && 0 <= kx < 3 && 0 <= ci < c_in ==> if 0 <= y + ky - 1 < h && 0 <= x + kx
                - 1 < w {
                call_ensures(
                    <A as Arith<T>>::mul_acc,
                    (
                        ops,
                        model.layer(l).w@[((oc * c_in + ci) * 3 + ky) * 3 + kx],
                        src[(ci * h + (y + ky - 1)) * w + (x + kx - 1)],
                        t[(ky * 3 + kx) * c_in + ci],
                    ),
                    #[trigger] t[(ky * 3 + kx) * c_in + ci + 1],
                )
            } else {
                t[(ky * 3 + kx) * c_in + ci + 1] == t[(ky * 3 + kx) * c_in + ci]
            },
        ({
            let (s, e) = (t[9 * c_in], out[(oc * h + y) * w + x]);
            if act {
                ||| call_ensures(<A as Arith<T>>::at_least_zero, (ops, s), true) && e == s
                ||| {
                    &&& call_ensures(<A as Arith<T>>::at_least_zero, (ops, s), false)
                    &&& exists|fifth: T|
                        #[trigger] call_ensures(<A as Arith<T>>::fifth, (ops,), fifth)
                            && call_ensures(<A as Arith<T>>::times, (ops, fifth, s), e)
                }
            } else {
                e == s
            }
        }),
{
    let conv = model.layer(l);
    let a = Taps { src, c_in, wt: conv.w@, bias: conv.bias@, h, w };
    assert(conv_is(ops, conv, src, c_in, h, w, act, out));
    let e = out[(oc * h + y) * w + x];
    assert(out[cell(a.h, a.w, oc, y, x)] == e);
    assert(a.value(ops, act, None, oc, y, x, e));
    let s = choose|s: T|
        {
            &&& #[trigger] a.pixel_sum(ops, oc, y, x, 9, s)
            &&& finished(ops, act, a.res_at(None, oc, y, x), s, e)
        };
    let t = lemma_taps(a, ops, oc, y, x, 9, s);
    assert(9nat * a.c_in == 9 * c_in);
    assert(activated(ops, act, s, e));
    t
}

/// On the host, the scaled residual is a fifth of the branch and the base, value by
/// value: the fifth and the product are returned.
pub proof fn host_residual_is_a_fifth_and_the_base<T, A: Arith<T>>(
    ops: &A,
    model: &Model<T>,
    branch: Seq<T>,
    base: Seq<T>,
    out: Seq<T>,
    i: int,
) -> (r: (T, T))
    requires
        (host_kernels(ops, model).residual)(branch, base, out),
        0 <= i < base.len(),
    ensures
        out.len() == base.len(),
        call_ensures(<A as Arith<T>>::fifth, (ops,), r.0),
        call_ensures(<A as Arith<T>>::times, (ops, branch[i], r.0), r.1),
        call_ensures(<A as Arith<T>>::plus, (ops, r.1, base[i]), out[i]),
{
    assert(residuals(ops, branch, base, out));
    assert(residual_is(ops, branch[i], base[i], out[i]));
    choose|s: T, m: T|
        {
            &&& fifth_is(ops, s)
            &&& #[trigger] times_is(ops, branch[i], s, m)
            &&& plus_is(ops, m, base[i], out[i])
        }
}

/// On the host, the global skip adds value to value.
pub proof fn host_join_adds<T, A: Arith<T>>(
    ops: &A,
    model: &Model<T>,
    base: Seq<T>,
    branch: Seq<T>,
    out: Seq<T>,
    i: int,
)
    requires
        (host_kernels(ops, model).join)(base, branch, out),
        0 <= i < base.len(),
    ensures
        out.len() == base.len(),
        call_ensures(<A as Arith<T>>::plus, (ops, base[i], branch[i]), out[i]),
{
    assert(sums(ops, base, branch, out));
    assert(plus_is(ops, base[i], branch[i], out[i]));
}

/// The host's network has the host's kernels and the model's geometry.
pub proof fn host_network_is_the_models<T, A: Arith<T>>(ops: &A, model: &Model<T>, h: int, w: int)
    ensures
        host_net(ops, model, h, w).k == host_kernels(ops, model),
        host_net(ops, model, h, w).g == model.geom,
        host_net(ops, model, h, w).h == h,
        host_net(ops, model, h, w).w == w,
{
}

} // verus!
