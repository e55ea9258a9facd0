//! The device's program is the network.

use vstd::prelude::*;

use crate::forward::lemma_prefix;
use crate::forward::prefix;
use crate::graph::Kernels;
use crate::graph::Net;
use crate::model::dense_layer;
use crate::program::added;
use crate::program::convolved;
use crate::program::steps;
use crate::program::traced;
use crate::program::Buf;
use crate::program::DeviceOp;
use crate::program::Extent;
use crate::program::Memory;
use crate::shuffle::unshuffled;
use crate::shuffle::upsampled;

verus! {

/// The network that a device runs with these kernels.
pub open spec fn device_net<T>(e: Extent, k: Kernels<T>) -> Net<T> {
    Net { k, g: e.g, h: e.h as int, w: e.w as int }
}

/// What a dense block and a block keep: their own input, and the first
/// convolution.
spec fn kept<T>(m: Memory<T>, m2: Memory<T>) -> bool {
    m2.at[Buf::Save] == m.at[Buf::Save] && m2.at[Buf::Skip] == m.at[Buf::Skip]
}

/// One growing convolution on the device.
proof fn lemma_grow<T>(
    e: Extent,
    k: Kernels<T>,
    b: int,
    r: int,
    n: int,
    x: Seq<T>,
    m: Memory<T>,
    m2: Memory<T>,
)
    requires
        e.wf(),
        0 <= b < e.g.num_block,
        0 <= r < 3,
        0 <= n < 4,
        m.sized(e),
        m.after(k, e.dense_conv(b, r, n), m2),
        device_net(e, k).grown(
            dense_layer(b, r, 0),
            x,
            n as nat,
            m.at[Buf::Ws].take(prefix(e.g, e.h as int, e.w as int, n)),
        ),
    ensures
        m2.sized(e),
        kept(m, m2),
        m2.at[Buf::Cur] == m.at[Buf::Cur],
        device_net(e, k).grown(
            dense_layer(b, r, 0),
            x,
            (n + 1) as nat,
            m2.at[Buf::Ws].take(prefix(e.g, e.h as int, e.w as int, n + 1)),
        ),
{
    let (g, h, w) = (e.g, e.h as int, e.w as int);
    let net = device_net(e, k);
    lemma_prefix(g, h, w, n);
    let l = dense_layer(b, r, n);
    let p = prefix(g, h, w, n);
    let seen = m.at[Buf::Ws].take(p);
    match e.dense_conv(b, r, n) {
        DeviceOp::Conv { layer, src, dst, dst_ch, c_in, c_out, h: hh, w: ww, act } => {
            let out = choose|out: Seq<T>|
                {
                    &&& #[trigger] convolved(k, m, layer, src, c_in, hh, ww, act, out)
                    &&& out.len() == c_out * hh * ww
                    &&& m.stored(dst, dst_ch * hh * ww, out, m2)
                };
            assert(m.at[Buf::Ws].len() == e.len(Buf::Ws));
            assert(net.grows(l, n, seen, out));
            net.lemma_grown(dense_layer(b, r, 0), x, n as nat, seen, out);
            assert(m2.at[Buf::Ws].take(p + out.len()) =~= seen + out);
            assert forall|bf: Buf| #[trigger] m2.at[bf].len() == e.len(bf)
                && m2.at.dom().contains(bf) by {
                assert(m.at[bf].len() == e.len(bf));
            }
        },
        _ => {},
    }
}

/// The buffers that hold the working features.
spec fn holds_features(b: Buf) -> bool {
    b == Buf::Cur || b == Buf::X5 || b == Buf::Rdb || b == Buf::Save || b == Buf::Skip || b
        == Buf::Body
}

/// A copy of the working features.
proof fn lemma_copy<T>(e: Extent, k: Kernels<T>, src: Buf, dst: Buf, m: Memory<T>, m2: Memory<T>)
    requires
        e.wf(),
        m.sized(e),
        holds_features(src),
        holds_features(dst) || dst == Buf::Ws,
        m.after(k, e.copy(src, dst), m2),
    ensures
        m2.sized(e),
        forall|b: Buf| b != dst ==> #[trigger] m2.at[b] == m.at[b],
        m2.at[dst].take(e.g.num_feat * e.h * e.w) == m.at[src],
        holds_features(dst) ==> m2.at[dst] == m.at[src],
{
    let (g, h, w) = (e.g, e.h as int, e.w as int);
    lemma_prefix(g, h, w, 0);
    let n = g.num_feat * h * w;
    assert(m.at[src].len() == e.len(src) && m.at[dst].len() == e.len(dst));
    assert(m.at[src].take(n) =~= m.at[src]);
    assert(m2.at[dst].take(n) =~= m.at[src]);
    if holds_features(dst) {
        assert(m2.at[dst] =~= m.at[src]);
    }
    assert forall|b: Buf| #[trigger] m2.at[b].len() == e.len(b) && m2.at.dom().contains(b) by {
        assert(m.at[b].len() == e.len(b));
    }
}

/// A sum of the working features.
proof fn lemma_add<T>(
    e: Extent,
    k: Kernels<T>,
    a: Buf,
    b: Buf,
    dst: Buf,
    fifth: bool,
    m: Memory<T>,
    m2: Memory<T>,
)
    requires
        e.wf(),
        m.sized(e),
        holds_features(a),
        holds_features(b),
        holds_features(dst),
        m.after(k, e.add(a, b, dst, fifth), m2),
    ensures
        m2.sized(e),
        forall|x: Buf| x != dst ==> #[trigger] m2.at[x] == m.at[x],
        if fifth {
            (k.residual)(m.at[b], m.at[a], m2.at[dst])
        } else {
            (k.join)(m.at[a], m.at[b], m2.at[dst])
        },
{
    let (g, h, w) = (e.g, e.h as int, e.w as int);
    lemma_prefix(g, h, w, 0);
    let n = (g.num_feat * h * w) as usize;
    assert(m.at[a].len() == e.len(a) && m.at[b].len() == e.len(b));
    assert(m.at[dst].len() == e.len(dst));
    assert(m.at[a].take(n as int) =~= m.at[a] && m.at[b].take(n as int) =~= m.at[b]);
    let out = choose|out: Seq<T>|
        {
            &&& #[trigger] added(k, m, a, b, n, fifth, out)
            &&& out.len() == n
            &&& m.stored(dst, 0, out, m2)
        };
    assert(m2.at[dst] =~= out);
    assert forall|x: Buf| #[trigger] m2.at[x].len() == e.len(x) && m2.at.dom().contains(x) by {
        assert(m.at[x].len() == e.len(x));
    }
}

/// A convolution that fills the first values of its destination.
proof fn lemma_conv<T>(
    e: Extent,
    k: Kernels<T>,
    layer: usize,
    src: Buf,
    dst: Buf,
    c_in: usize,
    c_out: usize,
    h: usize,
    w: usize,
    act: bool,
    m: Memory<T>,
    m2: Memory<T>,
)
    requires
        m.sized(e),
        0 <= c_out * h * w <= e.len(dst),
        m.after(
            k,
            DeviceOp::Conv { layer, src, dst, dst_ch: 0, c_in, c_out, h, w, act },
            m2,
        ),
    ensures
        m2.sized(e),
        forall|x: Buf| x != dst ==> #[trigger] m2.at[x] == m.at[x],
        (k.conv)(
            layer as int,
            m.at[src].take(c_in * h * w),
            c_in as int,
            h as int,
            w as int,
            act,
            m2.at[dst].take(c_out * h * w),
        ),
        c_out * h * w == e.len(dst) ==> m2.at[dst].take(c_out * h * w) == m2.at[dst],
{
    let out = choose|out: Seq<T>|
        {
            &&& #[trigger] convolved(k, m, layer, src, c_in, h, w, act, out)
            &&& out.len() == c_out * h * w
            &&& m.stored(dst, 0 * h * w, out, m2)
        };
    assert(m.at[dst].len() == e.len(dst));
    assert(0 * h * w == 0) by (nonlinear_arith);
    assert(m2.at[dst].take(c_out * h * w) =~= out);
    if c_out * h * w == e.len(dst) {
        assert(m2.at[dst].take(c_out * h * w) =~= m2.at[dst]);
    }
    assert forall|x: Buf| #[trigger] m2.at[x].len() == e.len(x) && m2.at.dom().contains(x) by {
        assert(m.at[x].len() == e.len(x));
    }
}

/// The part `part` of the program stands at `o`.
spec fn stands(ops: Seq<DeviceOp>, o: int, part: Seq<DeviceOp>) -> bool {
    0 <= o && o + part.len() <= ops.len() && ops.subrange(o, o + part.len()) == part
}

/// Operation `i` of a part that stands at `o`.
proof fn lemma_stands<T>(
    k: Kernels<T>,
    ops: Seq<DeviceOp>,
    trace: Seq<Memory<T>>,
    o: int,
    part: Seq<DeviceOp>,
    i: int,
)
    requires
        traced(k, ops, trace),
        stands(ops, o, part),
        0 <= i < part.len(),
    ensures
        trace[o + i].after(k, part[i], trace[o + i + 1]),
{
    assert(ops.subrange(o, o + part.len())[i] == ops[o + i]);
    assert(steps(k, ops, trace, o + i));
}

/// One dense block on the device.
proof fn lemma_dense<T>(
    e: Extent,
    k: Kernels<T>,
    ops: Seq<DeviceOp>,
    trace: Seq<Memory<T>>,
    o: int,
    b: int,
    r: int,
)
    requires
        e.wf(),
        0 <= b < e.g.num_block,
        0 <= r < 3,
        traced(k, ops, trace),
        stands(ops, o, e.dense_ops(b, r)),
        trace[o].sized(e),
    ensures
        trace[o + 8].sized(e),
        kept(trace[o], trace[o + 8]),
        device_net(e, k).dense(
            dense_layer(b, r, 0),
            trace[o].at[Buf::Cur],
            trace[o + 8].at[Buf::Cur],
        ),
{
    let (g, h, w) = (e.g, e.h as int, e.w as int);
    let net = device_net(e, k);
    let part = e.dense_ops(b, r);
    let l = dense_layer(b, r, 0);
    let x = trace[o].at[Buf::Cur];
    lemma_prefix(g, h, w, 0);
    lemma_prefix(g, h, w, 4);
    lemma_stands(k, ops, trace, o, part, 0);
    lemma_copy(e, k, Buf::Cur, Buf::Ws, trace[o], trace[o + 1]);
    assert(net.grown(l, x, 0, trace[o + 1].at[Buf::Ws].take(prefix(g, h, w, 0))));
    lemma_stands(k, ops, trace, o, part, 1);
    lemma_grow(e, k, b, r, 0, x, trace[o + 1], trace[o + 2]);
    lemma_stands(k, ops, trace, o, part, 2);
    lemma_grow(e, k, b, r, 1, x, trace[o + 2], trace[o + 3]);
    lemma_stands(k, ops, trace, o, part, 3);
    lemma_grow(e, k, b, r, 2, x, trace[o + 3], trace[o + 4]);
    lemma_stands(k, ops, trace, o, part, 4);
    lemma_grow(e, k, b, r, 3, x, trace[o + 4], trace[o + 5]);
    let ws = trace[o + 5].at[Buf::Ws];
    assert(ws.len() == e.len(Buf::Ws));
    assert(ws.take(prefix(g, h, w, 4)) =~= ws);
    lemma_stands(k, ops, trace, o, part, 5);
    lemma_conv(
        e,
        k,
        dense_layer(b, r, 4) as usize,
        Buf::Ws,
        Buf::X5,
        (g.num_feat + 4 * g.num_grow_ch) as usize,
        g.num_feat,
        e.h,
        e.w,
        false,
        trace[o + 5],
        trace[o + 6],
    );
    let x5 = trace[o + 6].at[Buf::X5];
    assert(net.gathers(l + 4, ws, x5));
    lemma_stands(k, ops, trace, o, part, 6);
    lemma_add(e, k, Buf::Cur, Buf::X5, Buf::Rdb, true, trace[o + 6], trace[o + 7]);
    lemma_stands(k, ops, trace, o, part, 7);
    lemma_copy(e, k, Buf::Rdb, Buf::Cur, trace[o + 7], trace[o + 8]);
    assert(net.residual(x5, x, trace[o + 8].at[Buf::Cur]));
}

/// Two parts that stand together stand one behind the other.
proof fn lemma_split(ops: Seq<DeviceOp>, o: int, a: Seq<DeviceOp>, b: Seq<DeviceOp>)
    requires
        stands(ops, o, a + b),
    ensures
        stands(ops, o, a),
        stands(ops, o + a.len(), b),
{
    let all = ops.subrange(o, o + (a + b).len());
    assert(ops.subrange(o, o + a.len()) =~= a) by {
        assert forall|i: int| 0 <= i < a.len() implies ops[o + i] == a[i] by {
            assert(all[i] == (a + b)[i]);
        }
    }
    assert(ops.subrange(o + a.len(), o + a.len() + b.len()) =~= b) by {
        assert forall|i: int| 0 <= i < b.len() implies ops[o + a.len() + i] == b[i] by {
            assert(all[a.len() + i] == (a + b)[a.len() + i]);
        }
    }
}

/// One block on the device.
proof fn lemma_block<T>(
    e: Extent,
    k: Kernels<T>,
    ops: Seq<DeviceOp>,
    trace: Seq<Memory<T>>,
    o: int,
    b: int,
)
    requires
        e.wf(),
        0 <= b < e.g.num_block,
        traced(k, ops, trace),
        stands(ops, o, e.block_ops(b)),
        trace[o].sized(e),
    ensures
        e.block_ops(b).len() == 27,
        trace[o + 27].sized(e),
        trace[o + 27].at[Buf::Skip] == trace[o].at[Buf::Skip],
        device_net(e, k).rrdb(b, trace[o].at[Buf::Cur], trace[o + 27].at[Buf::Cur]),
{
    let net = device_net(e, k);
    let p0 = seq![e.copy(Buf::Cur, Buf::Save)];
    let (d0, d1, d2) = (e.dense_ops(b, 0), e.dense_ops(b, 1), e.dense_ops(b, 2));
    let p4 = seq![e.add(Buf::Save, Buf::Cur, Buf::Rdb, true), e.copy(Buf::Rdb, Buf::Cur)];
    lemma_split(ops, o, p0 + d0 + d1 + d2, p4);
    lemma_split(ops, o, p0 + d0 + d1, d2);
    lemma_split(ops, o, p0 + d0, d1);
    lemma_split(ops, o, p0, d0);
    let x = trace[o].at[Buf::Cur];
    lemma_stands(k, ops, trace, o, p0, 0);
    lemma_copy(e, k, Buf::Cur, Buf::Save, trace[o], trace[o + 1]);
    lemma_dense(e, k, ops, trace, o + 1, b, 0);
    lemma_dense(e, k, ops, trace, o + 9, b, 1);
    lemma_dense(e, k, ops, trace, o + 17, b, 2);
    let (x1, x2, x3) = (
        trace[o + 9].at[Buf::Cur],
        trace[o + 17].at[Buf::Cur],
        trace[o + 25].at[Buf::Cur],
    );
    lemma_denses(net, b, x, x1, x2, x3);
    lemma_stands(k, ops, trace, o + 25, p4, 0);
    lemma_add(e, k, Buf::Save, Buf::Cur, Buf::Rdb, true, trace[o + 25], trace[o + 26]);
    lemma_stands(k, ops, trace, o + 25, p4, 1);
    lemma_copy(e, k, Buf::Rdb, Buf::Cur, trace[o + 26], trace[o + 27]);
    assert(net.residual(x3, x, trace[o + 27].at[Buf::Cur]));
}

/// Three dense blocks, one after another.
proof fn lemma_denses<T>(net: Net<T>, b: int, x: Seq<T>, x1: Seq<T>, x2: Seq<T>, x3: Seq<T>)
    requires
        net.dense(dense_layer(b, 0, 0), x, x1),
        net.dense(dense_layer(b, 1, 0), x1, x2),
        net.dense(dense_layer(b, 2, 0), x2, x3),
    ensures
        net.denses(b, x, 3, x3),
{
    assert(net.denses(b, x, 0, x));
    let (n1, n2, n3) = (1nat, 2nat, 3nat);
    assert(net.dense(dense_layer(b, n1 - 1, 0), x, x1));
    assert(net.denses(b, x, n1, x1));
    assert(net.dense(dense_layer(b, n2 - 1, 0), x1, x2));
    assert(net.denses(b, x, n2, x2));
    assert(net.dense(dense_layer(b, n3 - 1, 0), x2, x3));
}

/// The first `n` blocks on the device.
proof fn lemma_body<T>(
    e: Extent,
    k: Kernels<T>,
    ops: Seq<DeviceOp>,
    trace: Seq<Memory<T>>,
    o: int,
    n: nat,
)
    requires
        e.wf(),
        n <= e.g.num_block,
        traced(k, ops, trace),
        stands(ops, o, e.body_ops(n)),
        trace[o].sized(e),
    ensures
        e.body_ops(n).len() == 27 * n,
        trace[o + 27 * n].sized(e),
        trace[o + 27 * n].at[Buf::Skip] == trace[o].at[Buf::Skip],
        device_net(e, k).body(trace[o].at[Buf::Cur], n, trace[o + 27 * n].at[Buf::Cur]),
    decreases n,
{
    if n > 0 {
        let m = (n - 1) as nat;
        lemma_split(ops, o, e.body_ops(m), e.block_ops(n - 1));
        lemma_body(e, k, ops, trace, o, m);
        lemma_block(e, k, ops, trace, o + 27 * m, n - 1);
        assert(o + 27 * m + 27 == o + 27 * n);
        assert(device_net(e, k).rrdb(
            n - 1,
            trace[o + 27 * m].at[Buf::Cur],
            trace[o + 27 * n].at[Buf::Cur],
        ));
    }
}

/// The sizes of the enlarged planes.
proof fn lemma_large<T>(e: Extent, m: Memory<T>)
    requires
        e.wf(),
        m.sized(e),
    ensures
        0 <= e.g.num_feat * e.h * e.w <= e.g.num_feat * (e.h * 2) * (e.w * 2) <= e.g.num_feat * (e.h
            * 4) * (e.w * 4),
        0 <= e.g.out_ch * (e.h * 4) * (e.w * 4),
        e.h * 4 <= usize::MAX,
        e.w * 4 <= usize::MAX,
{
    let (nf, oc, h, w) = (e.g.num_feat as int, e.g.out_ch as int, e.h as int, e.w as int);
    assert(0 <= nf * h * w <= nf * (h * 2) * (w * 2) <= nf * (h * 4) * (w * 4)) by (nonlinear_arith)
        requires
            0 <= nf,
            0 < h,
            0 < w,
    ;
    assert(0 <= oc * (h * 4) * (w * 4)) by (nonlinear_arith)
        requires
            0 <= oc,
            0 < h,
            0 < w,
    ;
    assert(h * 4 <= (h * 4) * (w * 4) && w * 4 <= (h * 4) * (w * 4)) by (nonlinear_arith)
        requires
            0 < h,
            0 < w,
    ;
}

/// An upsampling on the device, of `c` channels of `h` by `w` values.
proof fn lemma_upsample<T>(
    e: Extent,
    k: Kernels<T>,
    src: Buf,
    dst: Buf,
    c: usize,
    h: usize,
    w: usize,
    m: Memory<T>,
    m2: Memory<T>,
)
    requires
        m.sized(e),
        0 <= c * (h * 2) * (w * 2) == e.len(dst),
        m.after(k, DeviceOp::Upsample { src, dst, c, h, w }, m2),
    ensures
        m2.sized(e),
        forall|x: Buf| x != dst ==> #[trigger] m2.at[x] == m.at[x],
        m2.at[dst] == upsampled(m.at[src].take(c * h * w), c as int, h as int, w as int),
{
    assert(m.at[dst].len() == e.len(dst));
    assert(m2.at[dst] =~= upsampled(m.at[src].take(c * h * w), c as int, h as int, w as int));
    assert forall|x: Buf| #[trigger] m2.at[x].len() == e.len(x) && m2.at.dom().contains(x) by {
        assert(m.at[x].len() == e.len(x));
    }
}

/// What comes behind the body, on the device.
proof fn lemma_tail<T>(
    e: Extent,
    k: Kernels<T>,
    ops: Seq<DeviceOp>,
    trace: Seq<Memory<T>>,
    o: int,
    image: Seq<T>,
)
    requires
        e.wf(),
        traced(k, ops, trace),
        stands(ops, o, e.tail_ops()),
        trace[o].sized(e),
        device_net(e, k).at_body(
            image,
            e.ih as int,
            e.iw as int,
            e.g.num_block as nat,
            trace[o].at[Buf::Skip],
            trace[o].at[Buf::Cur],
        ),
    ensures
        trace[o + 8].sized(e),
        device_net(e, k).network(image, e.ih as int, e.iw as int, trace[o + 8].at[Buf::Out]),
{
    let net = device_net(e, k);
    let part = e.tail_ops();
    let l = 15 * e.g.num_block;
    let nf = e.g.num_feat;
    let (ih, iw) = (e.ih as int, e.iw as int);
    let (h, w) = (e.h as int, e.w as int);
    lemma_large(e, trace[o]);
    let (s, x) = (trace[o].at[Buf::Skip], trace[o].at[Buf::Cur]);
    assert(x.len() == e.len(Buf::Cur));
    assert(x.take(nf * h * w) =~= x);
    assert(h * 1 == h && w * 1 == w);
    lemma_stands(k, ops, trace, o, part, 0);
    lemma_conv(
        e,
        k,
        (l + 1) as usize,
        Buf::Cur,
        Buf::Body,
        nf,
        nf,
        e.h,
        e.w,
        false,
        trace[o],
        trace[o + 1],
    );
    let f = trace[o + 1].at[Buf::Body];
    assert(net.feature(l + 1, 1, x, false, f));
    lemma_stands(k, ops, trace, o, part, 1);
    lemma_add(e, k, Buf::Skip, Buf::Body, Buf::Cur, false, trace[o + 1], trace[o + 2]);
    let t = trace[o + 2].at[Buf::Cur];
    assert(net.closed(x, s, t));
    assert(net.trunk(image, ih, iw, t));
    // The first enlargement.
    assert(t.len() == e.len(Buf::Cur));
    assert(t.take(nf * h * w) =~= t);
    lemma_stands(k, ops, trace, o, part, 2);
    lemma_upsample(e, k, Buf::Cur, Buf::Up1, nf, e.h, e.w, trace[o + 2], trace[o + 3]);
    let v1 = trace[o + 3].at[Buf::Up1];
    let (h2, w2) = ((h * 2) as usize, (w * 2) as usize);
    assert(v1.len() == e.len(Buf::Up1));
    assert(v1.take(nf * h2 * w2) =~= v1);
    lemma_stands(k, ops, trace, o, part, 3);
    lemma_conv(
        e,
        k,
        (l + 2) as usize,
        Buf::Up1,
        Buf::Hr,
        nf,
        nf,
        h2,
        w2,
        true,
        trace[o + 3],
        trace[o + 4],
    );
    let u = trace[o + 4].at[Buf::Hr].take(nf * h2 * w2);
    assert(net.up(0, 1, t, u));
    // The second.
    let (h4, w4) = ((h * 4) as usize, (w * 4) as usize);
    assert(h2 * 2 == h4 && w2 * 2 == w4);
    lemma_stands(k, ops, trace, o, part, 4);
    lemma_upsample(e, k, Buf::Hr, Buf::Up2, nf, h2, w2, trace[o + 4], trace[o + 5]);
    let v2 = trace[o + 5].at[Buf::Up2];
    assert(v2.len() == e.len(Buf::Up2));
    assert(v2.take(nf * h4 * w4) =~= v2);
    lemma_stands(k, ops, trace, o, part, 5);
    lemma_conv(
        e,
        k,
        (l + 3) as usize,
        Buf::Up2,
        Buf::Hr,
        nf,
        nf,
        h4,
        w4,
        true,
        trace[o + 5],
        trace[o + 6],
    );
    let z = trace[o + 6].at[Buf::Hr];
    assert(net.up(1, 2, u, z));
    assert(net.risen(image, ih, iw, 2, z));
    // The head.
    assert(z.len() == e.len(Buf::Hr));
    assert(z.take(nf * h4 * w4) =~= z);
    lemma_stands(k, ops, trace, o, part, 6);
    lemma_conv(
        e,
        k,
        (l + 4) as usize,
        Buf::Hr,
        Buf::Up2,
        nf,
        nf,
        h4,
        w4,
        true,
        trace[o + 6],
        trace[o + 7],
    );
    let q = trace[o + 7].at[Buf::Up2];
    assert(net.feature(l + 4, 4, z, true, q));
    assert(net.high(image, ih, iw, q));
    assert(q.len() == e.len(Buf::Up2));
    assert(q.take(nf * h4 * w4) =~= q);
    lemma_stands(k, ops, trace, o, part, 7);
    lemma_conv(
        e,
        k,
        (l + 5) as usize,
        Buf::Up2,
        Buf::Out,
        nf,
        e.g.out_ch,
        h4,
        w4,
        false,
        trace[o + 7],
        trace[o + 8],
    );
    assert(net.feature(l + 5, 4, q, false, trace[o + 8].at[Buf::Out]));
}

/// Running the program on a device leaves the network's result in `Out`, whatever
/// the device's kernels compute: the host's pass and the device's are the same
/// graph. The image is in `Stage` for the x2 model and in `Feat` otherwise, and
/// the other buffers may hold anything.
pub proof fn program_is_the_network<T>(
    e: Extent,
    k: Kernels<T>,
    image: Seq<T>,
    trace: Seq<Memory<T>>,
)
    requires
        e.wf(),
        traced(k, e.program(), trace),
        trace[0].sized(e),
        trace[0].at[if e.g.scale == 2 {
            Buf::Stage
        } else {
            Buf::Feat
        }] == image,
    ensures
        trace.last().sized(e),
        device_net(e, k).network(image, e.ih as int, e.iw as int, trace.last().at[Buf::Out]),
{
    let net = device_net(e, k);
    let ops = e.program();
    let nb = e.g.num_block as nat;
    let (head, body, tail) = (e.head_ops(), e.body_ops(nb), e.tail_ops());
    assert(ops.subrange(0, ops.len() as int) =~= ops);
    lemma_split(ops, 0, head + body, tail);
    lemma_split(ops, 0, head, body);
    let first = head.last();
    let o = head.len() as int;
    let conv = head[o - 2];
    let pre = if e.g.scale == 2 {
        seq![DeviceOp::Unshuffle { c: e.g.in_ch, h: e.ih, w: e.iw }]
    } else {
        Seq::empty()
    };
    let post = seq![conv, first];
    assert(head =~= pre + post);
    lemma_split(ops, 0, pre, post);
    let i = pre.len() as int;
    if e.g.scale == 2 {
        lemma_stands(k, ops, trace, 0, pre, 0);
        lemma_unshuffle(e, k, trace[0], trace[1]);
    }
    let entered = net.entered(image, e.ih as int, e.iw as int);
    assert(trace[i].sized(e) && trace[i].at[Buf::Feat] == entered);
    assert(entered.len() == e.len(Buf::Feat));
    assert(entered.take(e.g.first_in() * e.h * e.w) =~= entered);
    lemma_large(e, trace[i]);
    lemma_stands(k, ops, trace, i, post, 0);
    lemma_conv(
        e,
        k,
        0,
        Buf::Feat,
        Buf::Cur,
        e.g.first_in() as usize,
        e.g.num_feat,
        e.h,
        e.w,
        false,
        trace[i],
        trace[i + 1],
    );
    let s = trace[i + 1].at[Buf::Cur];
    assert(net.first(entered, s));
    lemma_stands(k, ops, trace, i, post, 1);
    lemma_copy(e, k, Buf::Cur, Buf::Skip, trace[i + 1], trace[i + 2]);
    assert(i + 2 == o);
    lemma_body(e, k, ops, trace, o, nb);
    lemma_tail(e, k, ops, trace, o + 27 * nb, image);
    assert(trace.last() == trace[o + 27 * nb + 8]);
}

/// The unshuffling on the device.
proof fn lemma_unshuffle<T>(e: Extent, k: Kernels<T>, m: Memory<T>, m2: Memory<T>)
    requires
        e.wf(),
        e.g.scale == 2,
        m.sized(e),
        m.after(k, DeviceOp::Unshuffle { c: e.g.in_ch, h: e.ih, w: e.iw }, m2),
    ensures
        m2.sized(e),
        m2.at[Buf::Feat] == unshuffled(
            m.at[Buf::Stage],
            e.g.in_ch as int,
            e.ih as int,
            e.iw as int,
        ),
{
    let (c, h, w) = (e.g.in_ch as int, e.h as int, e.w as int);
    assert(0 <= c * 4 * h * w) by (nonlinear_arith)
        requires
            0 <= c,
            0 < h,
            0 < w,
    ;
    assert(m.at[Buf::Feat].len() == e.len(Buf::Feat));
    assert(m2.at[Buf::Feat] =~= unshuffled(
        m.at[Buf::Stage],
        e.g.in_ch as int,
        e.ih as int,
        e.iw as int,
    ));
    assert forall|x: Buf| #[trigger] m2.at[x].len() == e.len(x) && m2.at.dom().contains(x) by {
        assert(m.at[x].len() == e.len(x));
    }
}

} // verus!
