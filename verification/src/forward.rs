//! The forward pass on the host.
//!
//! The pass is a machine of steps, so that a program can report each stage and
//! write out what a step computed while the pass is under way. Running all steps
//! gives the network on the image.

use vstd::prelude::*;

use crate::arith::plus_is;
use crate::arith::residual;
use crate::arith::residual_is;
use crate::arith::Arith;
use crate::conv::Conv;
use crate::conv3x3::conv3x3_prefix;
use crate::conv3x3::ConvCall;
use crate::graph::Kernels;
use crate::graph::Net;
use crate::model::dense_layer;
use crate::model::Geometry;
use crate::model::Model;
use crate::plane::copied;
use crate::plane::write_at;
use crate::plane::Plane;
use crate::profile::ConvKey;
use crate::profile::HostRun;
use crate::shuffle::pixel_unshuffle2;
use crate::shuffle::unshuffled;
use crate::shuffle::upsample2x_nearest;
use crate::taps::Taps;

verus! {

/// `out` is convolution `conv` of the `c_in` channels `src`.
pub open spec fn conv_is<T, A: Arith<T>>(
    ops: &A,
    conv: Conv<T>,
    src: Seq<T>,
    c_in: int,
    h: int,
    w: int,
    act: bool,
    out: Seq<T>,
) -> bool {
    (Taps { src, c_in, wt: conv.w@, bias: conv.bias@, h, w }).plane(
        ops,
        conv.c_out as int,
        act,
        None,
        out,
    )
}

/// `out` is `branch * 0.2 + base`, value by value.
pub open spec fn residuals<T, A: Arith<T>>(
    ops: &A,
    branch: Seq<T>,
    base: Seq<T>,
    out: Seq<T>,
) -> bool {
    &&& out.len() == base.len()
    &&& forall|i: int|
        0 <= i < out.len() ==> residual_is(ops, branch[i], base[i], #[trigger] out[i])
}

/// `out` is `base + branch`, value by value.
pub open spec fn sums<T, A: Arith<T>>(ops: &A, base: Seq<T>, branch: Seq<T>, out: Seq<T>) -> bool {
    &&& out.len() == base.len()
    &&& forall|i: int| 0 <= i < out.len() ==> plus_is(ops, base[i], branch[i], #[trigger] out[i])
}

/// The host's kernels.
pub open spec fn host_kernels<T, A: Arith<T>>(ops: &A, model: &Model<T>) -> Kernels<T> {
    Kernels {
        conv: |l: int, src: Seq<T>, c_in: int, h: int, w: int, act: bool, out: Seq<T>|
            conv_is(ops, model.layer(l), src, c_in, h, w, act, out),
        residual: |branch: Seq<T>, base: Seq<T>, out: Seq<T>| residuals(ops, branch, base, out),
        join: |base: Seq<T>, branch: Seq<T>, out: Seq<T>| sums(ops, base, branch, out),
    }
}

/// The network on the host, at `h` by `w` working pixels.
pub open spec fn host_net<T, A: Arith<T>>(ops: &A, model: &Model<T>, h: int, w: int) -> Net<T> {
    Net { k: host_kernels(ops, model), g: model.geom, h, w }
}

/// Every plane of a pass at `h` by `w` working pixels can be held.
pub open spec fn fits(g: Geometry, h: int, w: int) -> bool {
    &&& 0 < h
    &&& 0 < w
    &&& (h * 4) * (w * 4) <= usize::MAX
    &&& g.dense() <= usize::MAX
    &&& g.dense() * h * w <= usize::MAX
    &&& g.num_feat * (h * 4) * (w * 4) <= usize::MAX
    &&& g.out_ch * (h * 4) * (w * 4) <= usize::MAX
}

/// `a * b * c`, if it can be held.
pub fn product(a: usize, b: usize, c: usize) -> (r: Option<usize>)
    ensures
        match r {
            Some(n) => n == a * b * c,
            None => a * b * c > usize::MAX,
        },
{
    if c == 0 {
        assert(a * b * c == 0) by (nonlinear_arith)
            requires
                c == 0,
        ;
        return Some(0);
    }
    match a.checked_mul(b) {
        Some(ab) => ab.checked_mul(c),
        None => {
            assert(a * b * c >= a * b) by (nonlinear_arith)
                requires
                    0 <= a * b,
                    1 <= c,
            ;
            None
        },
    }
}

/// Can every plane of a pass at `h` by `w` working pixels be held?
pub fn can_hold(g: &Geometry, h: usize, w: usize) -> (r: bool)
    ensures
        r == fits(*g, h as int, w as int),
{
    if h == 0 || w == 0 {
        return false;
    }
    let (h4, w4) = match (h.checked_mul(4), w.checked_mul(4)) {
        (Some(h4), Some(w4)) => (h4, w4),
        _ => {
            proof {
                let (h, w) = (h as int, w as int);
                assert(h * 4 <= (h * 4) * (w * 4) && w * 4 <= (h * 4) * (w * 4))
                    by (nonlinear_arith)
                    requires
                        0 < h,
                        0 < w,
                ;
            }
            return false;
        },
    };
    let dense = match g.num_grow_ch.checked_mul(4) {
        Some(n) => match g.num_feat.checked_add(n) {
            Some(d) => d,
            None => {
                return false;
            },
        },
        None => {
            return false;
        },
    };
    h4.checked_mul(w4).is_some() && product(dense, h, w).is_some() && product(
        g.num_feat,
        h4,
        w4,
    ).is_some() && product(g.out_ch, h4, w4).is_some()
}

/// `branch * 0.2 + base`, value by value.
pub fn residual_of<T: Copy, A: Arith<T>>(ops: &A, branch: &[T], base: &[T]) -> (r: Vec<T>)
    requires
        branch@.len() == base@.len(),
    ensures
        residuals(ops, branch@, base@, r@),
{
    let mut r: Vec<T> = Vec::with_capacity(base.len());
    while r.len() < base.len()
        invariant
            branch@.len() == base@.len(),
            r@.len() <= base@.len(),
            forall|i: int|
                0 <= i < r@.len() ==> residual_is(ops, branch@[i], base@[i], #[trigger] r@[i]),
        decreases base@.len() - r@.len(),
    {
        let i = r.len();
        r.push(residual(ops, branch[i], base[i]));
    }
    r
}

/// `base + branch`, value by value.
pub fn sum_of<T: Copy, A: Arith<T>>(ops: &A, base: &[T], branch: &[T]) -> (r: Vec<T>)
    requires
        branch@.len() == base@.len(),
    ensures
        sums(ops, base@, branch@, r@),
{
    let mut r: Vec<T> = Vec::with_capacity(base.len());
    while r.len() < base.len()
        invariant
            branch@.len() == base@.len(),
            r@.len() <= base@.len(),
            forall|i: int|
                0 <= i < r@.len() ==> plus_is(ops, base@[i], branch@[i], #[trigger] r@[i]),
        decreases base@.len() - r@.len(),
    {
        let i = r.len();
        let v = ops.plus(base[i], branch[i]);
        assert(plus_is(ops, base@[i as int], branch@[i as int], v));
        r.push(v);
    }
    r
}

/// A convolution of the first `c_in` channels of `src`, whose destination is all of
/// a plane: `dst` keeps its rows and columns and takes the convolution's channels.
pub fn conv_to<T: Copy + Send + Sync, A: Arith<T> + Sync>(
    ops: &A,
    src: &[T],
    c_in: usize,
    dst: &mut Plane<T>,
    conv: &Conv<T>,
    act: bool,
    run: &mut HostRun,
)
    requires
        (ConvCall { src, c_in, conv, h: old(dst).h, w: old(dst).w, act, res: None }).wf(),
    ensures
        final(dst).wf(),
        final(dst).c == conv.c_out,
        final(dst).h == old(dst).h,
        final(dst).w == old(dst).w,
        conv_is(
            ops,
            *conv,
            src@.take(c_in * old(dst).h * old(dst).w),
            c_in as int,
            old(dst).h as int,
            old(dst).w as int,
            act,
            final(dst).data@,
        ),
        old(run).ran(
            seq![ConvKey { c_in, c_out: conv.c_out, h: old(dst).h, w: old(dst).w, act }],
            *final(run),
        ),
{
    let (h, w) = (dst.h, dst.w);
    proof {
        let (c, h, w) = (conv.c_out as int, h as int, w as int);
        assert(c * h <= c * h * w) by (nonlinear_arith)
            requires
                0 <= c,
                0 < h,
                0 < w,
        ;
    }
    let zero = ops.zero();
    dst.set(conv.c_out, h, w, zero);
    conv3x3_prefix(ops, src, c_in, dst.data.as_mut_slice(), conv, h, w, act, None, run);
    assert(dst.data@.take(conv.c_out * h * w) =~= dst.data@);
}

/// The values of the dense workspace that convolution `k` of a block reads.
pub open spec fn prefix(g: Geometry, h: int, w: int, k: int) -> int {
    (g.num_feat + k * g.num_grow_ch) * h * w
}

/// What convolution `k` of a dense block needs: its input and output channels
/// lie inside the workspace.
pub proof fn lemma_prefix(g: Geometry, h: int, w: int, k: int)
    requires
        fits(g, h, w),
        0 <= k <= 4,
    ensures
        0 <= prefix(g, h, w, k) <= prefix(g, h, w, 4),
        prefix(g, h, w, 4) == g.dense() * h * w,
        prefix(g, h, w, 0) == g.num_feat * h * w,
        prefix(g, h, w, k + 1) == prefix(g, h, w, k) + g.num_grow_ch * h * w,
        k < 4 ==> prefix(g, h, w, k + 1) <= prefix(g, h, w, 4),
        0 <= g.num_feat + k * g.num_grow_ch <= g.dense(),
        0 <= g.num_grow_ch * h * w,
        0 <= g.num_feat * h * w,
        h * w <= (h * 4) * (w * 4),
        g.num_feat * h <= g.num_feat * h * w <= g.num_feat * (h * 4) * (w * 4),
{
    let (nf, ng) = (g.num_feat as int, g.num_grow_ch as int);
    assert(k * ng <= 4 * ng && 0 <= k * ng) by (nonlinear_arith)
        requires
            0 <= k <= 4,
            0 <= ng,
    ;
    let a = nf + k * ng;
    assert(0 <= a * h * w <= (nf + 4 * ng) * h * w) by (nonlinear_arith)
        requires
            0 <= a <= nf + 4 * ng,
            0 < h,
            0 < w,
    ;
    assert((nf + (k + 1) * ng) * h * w == (nf + k * ng) * h * w + ng * h * w) by (nonlinear_arith);
    if k < 4 {
        let b = nf + (k + 1) * ng;
        assert(b <= nf + 4 * ng) by (nonlinear_arith)
            requires
                k + 1 <= 4,
                0 <= ng,
                b == nf + (k + 1) * ng,
        ;
        assert(b * h * w <= (nf + 4 * ng) * h * w) by (nonlinear_arith)
            requires
                b <= nf + 4 * ng,
                0 < h,
                0 < w,
        ;
    }
    assert(0 <= ng * h * w && 0 <= nf * h * w) by (nonlinear_arith)
        requires
            0 <= ng,
            0 <= nf,
            0 < h,
            0 < w,
    ;
    assert(h * w <= (h * 4) * (w * 4)) by (nonlinear_arith)
        requires
            0 < h,
            0 < w,
    ;
    assert(nf * h <= nf * h * w <= nf * (h * 4) * (w * 4)) by (nonlinear_arith)
        requires
            0 <= nf,
            0 < h,
            0 < w,
    ;
}

/// Convolution `k` of a dense block, one of the first four: it reads the
/// workspace up to its own slot and fills the slot.
fn grow<T: Copy + Send + Sync, A: Arith<T> + Sync>(
    ops: &A,
    model: &Model<T>,
    b: usize,
    r: usize,
    k: usize,
    ws: &mut Plane<T>,
    run: &mut HostRun,
)
    requires
        model.wf(),
        b < model.geom.num_block,
        r < 3,
        k < 4,
        fits(model.geom, old(ws).h as int, old(ws).w as int),
        old(ws).wf(),
        old(ws).c == model.geom.dense(),
    ensures
        final(ws).wf(),
        final(ws).c == old(ws).c,
        final(ws).h == old(ws).h,
        final(ws).w == old(ws).w,
        ({
            let (h, w) = (old(ws).h as int, old(ws).w as int);
            let seen = old(ws).data@.take(prefix(model.geom, h, w, k as int));
            let upto = prefix(model.geom, h, w, k + 1);
            let out = final(ws).data@.subrange(seen.len() as int, upto);
            &&& host_net(ops, model, h, w).grows(
                dense_layer(b as int, r as int, k as int),
                k as int,
                seen,
                out,
            )
            &&& final(ws).data@.take(upto) == seen + out
        }),
        old(run).ran(
            seq![dense_key(model.geom, old(ws).h as int, old(ws).w as int, k as int)],
            *final(run),
        ),
{
    let g = model.geom;
    let (h, w) = (ws.h, ws.w);
    proof {
        lemma_prefix(g, h as int, w as int, k as int);
        model.lemma_dense_layer(b as int, r as int, k as int);
        assert(ws.data.len() == ws.data@.len());
        let (a, h, w) = (g.num_feat + k * g.num_grow_ch, h as int, w as int);
        assert(a * h <= a * h * w) by (nonlinear_arith)
            requires
                0 <= a,
                0 < h,
                0 < w,
        ;
        assert(0 <= k * g.num_grow_ch) by (nonlinear_arith)
            requires
                0 <= k,
                0 <= g.num_grow_ch,
        ;
    }
    let c_in = g.num_feat + k * g.num_grow_ch;
    let n = c_in * h * w;
    let conv = &model.blocks[b].rdbs[r].convs[k];
    let (head, tail) = ws.data.as_mut_slice().split_at_mut(n);
    let ghost before = head@;
    conv3x3_prefix(ops, head, c_in, tail, conv, h, w, true, None, run);
    let ghost after = tail@;
    proof {
        let m = conv.c_out * h * w;
        assert(before.take(c_in * h * w) =~= old(ws).data@.take(n as int));
        assert(after.take(m) =~= ws.data@.subrange(n as int, n + m));
        assert(ws.data@.take(n + m) =~= old(ws).data@.take(n as int) + ws.data@.subrange(
            n as int,
            n + m,
        ));
        let seen = old(ws).data@.take(n as int);
        let out = ws.data@.subrange(n as int, n + m);
        assert(m == g.num_grow_ch * h * w);
        assert(conv_is(ops, *conv, seen, c_in as int, h as int, w as int, true, out));
        assert(prefix(g, h as int, w as int, k + 1) == n + m);
        assert(host_net(ops, model, h as int, w as int).grows(
            dense_layer(b as int, r as int, k as int),
            k as int,
            seen,
            out,
        ));
    }
}

/// The shape of convolution `k` of a dense block.
pub open spec fn dense_key(g: Geometry, h: int, w: int, k: int) -> ConvKey {
    ConvKey {
        c_in: (g.num_feat + k * g.num_grow_ch) as usize,
        c_out: if k < 4 {
            g.num_grow_ch
        } else {
            g.num_feat
        },
        h: h as usize,
        w: w as usize,
        act: k < 4,
    }
}

/// The shapes of the convolutions of a dense block, in order.
pub open spec fn dense_keys(g: Geometry, h: int, w: int, n: nat) -> Seq<ConvKey> {
    Seq::new(n, |k: int| dense_key(g, h, w, k % 5))
}

/// One dense block. `ws` holds the block's input in its first channels, takes all of
/// the block's channels, and is itself the growing prefix; `dst` receives the fifth
/// convolution, before the residual.
fn dense_block_cpu<T: Copy + Send + Sync, A: Arith<T> + Sync>(
    ops: &A,
    model: &Model<T>,
    b: usize,
    r: usize,
    ws: &mut Plane<T>,
    dst: &mut Plane<T>,
    run: &mut HostRun,
)
    requires
        model.wf(),
        b < model.geom.num_block,
        r < 3,
        fits(model.geom, old(ws).h as int, old(ws).w as int),
        prefix(model.geom, old(ws).h as int, old(ws).w as int, 0) <= old(ws).data@.len(),
    ensures
        final(ws).wf(),
        final(ws).c == model.geom.dense(),
        final(ws).h == old(ws).h,
        final(ws).w == old(ws).w,
        final(dst).wf(),
        final(dst).c == model.geom.num_feat,
        final(dst).h == old(ws).h,
        final(dst).w == old(ws).w,
        ({
            let (h, w) = (old(ws).h as int, old(ws).w as int);
            let net = host_net(ops, model, h, w);
            let l = dense_layer(b as int, r as int, 0);
            &&& net.grown(l, old(ws).data@.take(prefix(model.geom, h, w, 0)), 4, final(ws).data@)
            &&& net.gathers(l + 4, final(ws).data@, final(dst).data@)
        }),
        old(run).ran(
            dense_keys(model.geom, old(ws).h as int, old(ws).w as int, 5),
            *final(run),
        ),
{
    let g = model.geom;
    let (h, w) = (ws.h, ws.w);
    let ghost net = host_net(ops, model, h as int, w as int);
    let ghost l = dense_layer(b as int, r as int, 0);
    let ghost x = ws.data@.take(prefix(g, h as int, w as int, 0));
    proof {
        lemma_prefix(g, h as int, w as int, 0);
        let (d, h, w) = (g.dense(), h as int, w as int);
        assert(d * h <= d * h * w) by (nonlinear_arith)
            requires
                0 <= d,
                0 < h,
                0 < w,
        ;
    }
    let zero = ops.zero();
    ws.set(g.num_feat + 4 * g.num_grow_ch, h, w, zero);
    assert(ws.data@.take(prefix(g, h as int, w as int, 0)) =~= x);
    let mut k: usize = 0;
    while k < 4
        invariant
            k <= 4,
            g == model.geom,
            model.wf(),
            b < model.geom.num_block,
            r < 3,
            fits(g, h as int, w as int),
            ws.wf(),
            ws.c == g.dense(),
            ws.h == h,
            ws.w == w,
            net == host_net(ops, model, h as int, w as int),
            l == dense_layer(b as int, r as int, 0),
            net.grown(l, x, k as nat, ws.data@.take(prefix(g, h as int, w as int, k as int))),
            old(run).ran(dense_keys(g, h as int, w as int, k as nat), *run),
        decreases 4 - k,
    {
        let ghost seen = ws.data@.take(prefix(g, h as int, w as int, k as int));
        let ghost was = *run;
        grow(ops, model, b, r, k, ws, run);
        proof {
            lemma_prefix(g, h as int, w as int, k as int);
            let upto = prefix(g, h as int, w as int, k + 1);
            let out = ws.data@.subrange(seen.len() as int, upto);
            net.lemma_grown(l, x, k as nat, seen, out);
            old(run).lemma_ran(
                dense_keys(g, h as int, w as int, k as nat),
                was,
                seq![dense_key(g, h as int, w as int, k as int)],
                *run,
            );
            assert(dense_keys(g, h as int, w as int, k as nat) + seq![
                dense_key(g, h as int, w as int, k as int),
            ] =~= dense_keys(g, h as int, w as int, (k + 1) as nat));
        }
        k += 1;
    }
    proof {
        lemma_prefix(g, h as int, w as int, 4);
        model.lemma_dense_layer(b as int, r as int, 4);
        assert(ws.data@.take(prefix(g, h as int, w as int, 4)) =~= ws.data@);
        assert(ws.data.len() == ws.data@.len());
    }
    let conv = &model.blocks[b].rdbs[r].convs[4];
    let ghost was = *run;
    dst.h = h;
    dst.w = w;
    conv_to(ops, ws.data.as_slice(), g.num_feat + 4 * g.num_grow_ch, dst, conv, false, run);
    proof {
        old(run).lemma_ran(
            dense_keys(g, h as int, w as int, 4),
            was,
            seq![dense_key(g, h as int, w as int, 4)],
            *run,
        );
        assert(dense_keys(g, h as int, w as int, 4) + seq![dense_key(g, h as int, w as int, 4)]
            =~= dense_keys(g, h as int, w as int, 5));
    }
}

/// `ch` channels of `ws` from channel `off` on, as a plane of their own.
fn ws_slice<T: Copy>(ws: &Plane<T>, off: usize, ch: usize) -> (r: Plane<T>)
    requires
        ws.wf(),
        off + ch <= ws.c,
    ensures
        r.wf(),
        r.c == ch,
        r.h == ws.h,
        r.w == ws.w,
        r.data@ == ws.data@.subrange(off * ws.h * ws.w, (off + ch) * ws.h * ws.w),
{
    proof {
        let (c, h, w, off, ch) = (ws.c as int, ws.h as int, ws.w as int, off as int, ch as int);
        assert(0 <= off * h * w && (off + ch) * h * w <= c * h * w && (off + ch) * h * w == off * h
            * w + ch * h * w && 0 <= ch * h * w) by (nonlinear_arith)
            requires
                0 <= off,
                0 <= ch,
                off + ch <= c,
                0 <= h,
                0 <= w,
        ;
        assert(ws.data.len() == ws.data@.len());
    }
    let hw = if ws.c == 0 {
        0
    } else {
        proof {
            let (c, h, w) = (ws.c as int, ws.h as int, ws.w as int);
            assert(h * w <= c * h * w) by (nonlinear_arith)
                requires
                    1 <= c,
                    0 <= h,
                    0 <= w,
            ;
        }
        ws.h * ws.w
    };
    proof {
        let (h, w, off, ch) = (ws.h as int, ws.w as int, off as int, ch as int);
        assert(off * (h * w) == off * h * w && (off + ch) * (h * w) == (off + ch) * h * w)
            by (nonlinear_arith);
    }
    let data = copied(ws.data.as_slice(), off * hw, (off + ch) * hw);
    Plane { c: ch, h: ws.h, w: ws.w, data }
}

/// A plane to be written out under a name.
pub struct Dump<T> {
    pub name: &'static str,
    pub plane: Plane<T>,
}

/// `d` is `n` dumps when dumps are wanted, and none otherwise.
pub open spec fn dumped<T>(wanted: bool, n: nat, d: Seq<Dump<T>>) -> bool {
    d.len() == if wanted {
        n
    } else {
        0
    }
}

/// `d` is, if dumps are wanted, the one dump of `p` under `name`.
pub open spec fn dumped_one<T>(
    wanted: bool,
    name: Seq<char>,
    p: Plane<T>,
    d: Seq<Dump<T>>,
) -> bool {
    &&& dumped(wanted, 1, d)
    &&& wanted ==> {
        &&& d[0].name@ == name
        &&& d[0].plane.c == p.c
        &&& d[0].plane.h == p.h
        &&& d[0].plane.w == p.w
        &&& d[0].plane.data@ == p.data@
    }
}

/// The one dump of `p`, if dumps are wanted.
fn dump_one<T: Copy>(wanted: bool, name: &'static str, p: &Plane<T>) -> (d: Vec<Dump<T>>)
    ensures
        dumped_one(wanted, name@, *p, d@),
{
    let mut d: Vec<Dump<T>> = Vec::new();
    if wanted {
        d.push(Dump { name, plane: p.clone() });
    }
    d
}

/// `d` is what the first dense block leaves to be written out, of its input `x`:
/// its first two convolutions and its fifth.
pub open spec fn first_dense<T>(net: Net<T>, x: Seq<T>, d: Seq<Dump<T>>) -> bool {
    exists|ws: Seq<T>| #[trigger] first_dense_from(net, x, ws, d)
}

/// The same, of the workspace `ws` that the block grew.
pub open spec fn first_dense_from<T>(net: Net<T>, x: Seq<T>, ws: Seq<T>, d: Seq<Dump<T>>) -> bool {
    let (g, h, w) = (net.g, net.h, net.w);
    &&& net.grown(1, x, 4, ws)
    &&& d.len() == 3
    &&& d[0].name@ == "02_b0r0_conv1"@
    &&& shaped(d[0].plane, g.num_grow_ch as int, h, w)
    &&& d[0].plane.data@ == ws.subrange(prefix(g, h, w, 0), prefix(g, h, w, 1))
    &&& d[1].name@ == "03_b0r0_conv2"@
    &&& shaped(d[1].plane, g.num_grow_ch as int, h, w)
    &&& d[1].plane.data@ == ws.subrange(prefix(g, h, w, 1), prefix(g, h, w, 2))
    &&& d[2].name@ == "04_b0r0_conv5"@
    &&& shaped(d[2].plane, g.num_feat as int, h, w)
    &&& net.gathers(5, ws, d[2].plane.data@)
}

/// The plane has this shape, and its data fill it.
pub open spec fn shaped<T>(p: Plane<T>, c: int, h: int, w: int) -> bool {
    p.wf() && p.c == c && p.h == h && p.w == w
}

/// One block: three dense blocks, and the scaled residual over them. `ws` is the
/// dense workspace.
fn rrdb_cpu<T: Copy + Send + Sync, A: Arith<T> + Sync>(
    ops: &A,
    model: &Model<T>,
    b: usize,
    cur: &Plane<T>,
    ws: &mut Plane<T>,
    wanted: bool,
    run: &mut HostRun,
) -> (res: (Plane<T>, Vec<Dump<T>>))
    requires
        model.wf(),
        b < model.geom.num_block,
        fits(model.geom, cur.h as int, cur.w as int),
        shaped(*cur, model.geom.num_feat as int, cur.h as int, cur.w as int),
        shaped(*old(ws), model.geom.dense(), cur.h as int, cur.w as int),
    ensures
        shaped(*final(ws), model.geom.dense(), cur.h as int, cur.w as int),
        shaped(res.0, model.geom.num_feat as int, cur.h as int, cur.w as int),
        host_net(ops, model, cur.h as int, cur.w as int).rrdb(b as int, cur.data@, res.0.data@),
        if wanted && b == 0 {
            first_dense(host_net(ops, model, cur.h as int, cur.w as int), cur.data@, res.1@)
        } else {
            res.1@.len() == 0
        },
        old(run).ran(dense_keys(model.geom, cur.h as int, cur.w as int, 15), *final(run)),
{
    let g = model.geom;
    let (nf, ng) = (g.num_feat, g.num_grow_ch);
    let (h, w) = (cur.h, cur.w);
    let ghost net = host_net(ops, model, h as int, w as int);
    let mut dumps: Vec<Dump<T>> = Vec::new();
    let mut x = cur.clone();
    let mut x5: Plane<T> = Plane { c: 0, h, w, data: Vec::new() };
    proof {
        lemma_prefix(g, h as int, w as int, 0);
        assert(dense_keys(g, h as int, w as int, 0) =~= Seq::<ConvKey>::empty());
    }
    let mut r: usize = 0;
    while r < 3
        invariant
            r <= 3,
            g == model.geom,
            nf == g.num_feat,
            ng == g.num_grow_ch,
            model.wf(),
            b < model.geom.num_block,
            h == cur.h,
            w == cur.w,
            fits(g, h as int, w as int),
            shaped(*ws, g.dense(), h as int, w as int),
            shaped(x, nf as int, h as int, w as int),
            net == host_net(ops, model, h as int, w as int),
            net.denses(b as int, cur.data@, r as nat, x.data@),
            if wanted && b == 0 && r > 0 {
                first_dense(net, cur.data@, dumps@)
            } else {
                dumps@.len() == 0
            },
            old(run).ran(dense_keys(g, h as int, w as int, (5 * r) as nat), *run),
        decreases 3 - r,
    {
        proof {
            lemma_prefix(g, h as int, w as int, 0);
            lemma_prefix(g, h as int, w as int, 1);
        }
        write_at(ws.data.as_mut_slice(), 0, x.data.as_slice());
        let ghost was = *run;
        assert(ws.data@.take(prefix(g, h as int, w as int, 0)) =~= x.data@);
        dense_block_cpu(ops, model, b, r, ws, &mut x5, run);
        if wanted && b == 0 && r == 0 {
            dumps.push(Dump { name: "02_b0r0_conv1", plane: ws_slice(ws, nf, ng) });
            dumps.push(Dump { name: "03_b0r0_conv2", plane: ws_slice(ws, nf + ng, ng) });
            dumps.push(Dump { name: "04_b0r0_conv5", plane: x5.clone() });
            assert(first_dense_from(net, x.data@, ws.data@, dumps@));
        }
        let out = residual_of(ops, x5.data.as_slice(), x.data.as_slice());
        proof {
            let n = (r + 1) as nat;
            assert(net.residual(x5.data@, x.data@, out@));
            assert(net.gathers(dense_layer(b as int, r as int, 0) + 4, ws.data@, x5.data@));
            assert(net.dense(dense_layer(b as int, n - 1, 0), x.data@, out@));
            assert(net.denses(b as int, cur.data@, n, out@));
            let (a, d) = (
                dense_keys(g, h as int, w as int, (5 * r) as nat),
                dense_keys(g, h as int, w as int, 5),
            );
            old(run).lemma_ran(a, was, d, *run);
            assert(a + d =~= dense_keys(g, h as int, w as int, (5 * (r + 1)) as nat));
        }
        x = Plane { c: nf, h, w, data: out };
        r += 1;
    }
    let data = residual_of(ops, x.data.as_slice(), cur.data.as_slice());
    assert(net.residual(x.data@, cur.data@, data@));
    (Plane { c: nf, h, w, data }, dumps)
}

/// The stages that a pass announces.
#[derive(Clone, Copy, PartialEq, Eq, Structural, Debug)]
pub enum Stage {
    PixelUnshuffle,
    ConvFirst,
    Body,
    ConvBody,
    Upsample,
    Head,
}

impl Stage {
    /// The name of the stage.
    pub open spec fn text(self) -> Seq<char> {
        match self {
            Stage::PixelUnshuffle => "pixel_unshuffle"@,
            Stage::ConvFirst => "conv_first"@,
            Stage::Body => "body"@,
            Stage::ConvBody => "conv_body"@,
            Stage::Upsample => "upsample"@,
            Stage::Head => "head"@,
        }
    }

    /// The name of the stage, as progress reports print it.
    pub fn name(&self) -> (r: &'static str)
        ensures
            r@ == self.text(),
    {
        match self {
            Stage::PixelUnshuffle => "pixel_unshuffle",
            Stage::ConvFirst => "conv_first",
            Stage::Body => "body",
            Stage::ConvBody => "conv_body",
            Stage::Upsample => "upsample",
            Stage::Head => "head",
        }
    }
}

/// Where a pass stands: the next thing it does.
#[derive(Clone, Copy, PartialEq, Eq, Structural, Debug)]
pub enum Phase {
    /// Enter the image, unshuffled for the x2 model.
    Enter,
    /// The first convolution.
    First,
    /// Block `b`; past the last one, leave the body.
    Block(usize),
    /// The body's convolution and the global skip.
    Join,
    /// Upsampling stage `i`.
    Up(usize),
    /// The head's first convolution.
    Hr,
    /// The head's last convolution.
    Last,
    /// Nothing: the result is there.
    Done,
}

/// A forward pass under way.
pub struct Pass<T> {
    pub phase: Phase,
    /// The rows and columns the network works on.
    pub h: usize,
    pub w: usize,
    /// What the last step computed.
    pub cur: Plane<T>,
    /// The first convolution, kept for the global skip.
    pub skip: Plane<T>,
    /// The dense workspace, shared by all blocks.
    pub ws: Plane<T>,
}

/// The stage that a step announces, if any. The body is announced once, before
/// its first block, also where there is no block.
pub open spec fn stage_at(g: Geometry, phase: Phase) -> Option<Stage> {
    match phase {
        Phase::Enter => if g.scale == 2 {
            Some(Stage::PixelUnshuffle)
        } else {
            None
        },
        Phase::First => Some(Stage::ConvFirst),
        Phase::Block(b) => if b == 0 {
            Some(Stage::Body)
        } else {
            None
        },
        Phase::Join => Some(Stage::ConvBody),
        Phase::Up(i) => if i == 0 {
            Some(Stage::Upsample)
        } else {
            None
        },
        Phase::Hr => Some(Stage::Head),
        _ => None,
    }
}

/// The phase after a step.
pub open spec fn phase_after(g: Geometry, phase: Phase) -> Phase {
    match phase {
        Phase::Enter => Phase::First,
        Phase::First => Phase::Block(0),
        Phase::Block(b) => if b < g.num_block {
            Phase::Block((b + 1) as usize)
        } else {
            Phase::Join
        },
        Phase::Join => Phase::Up(0),
        Phase::Up(i) => if i == 0 {
            Phase::Up(1)
        } else {
            Phase::Hr
        },
        Phase::Hr => Phase::Last,
        _ => Phase::Done,
    }
}

/// How many steps are left.
pub open spec fn steps_left(g: Geometry, phase: Phase) -> int {
    match phase {
        Phase::Enter => g.num_block + 8,
        Phase::First => g.num_block + 7,
        Phase::Block(b) => g.num_block - b + 6,
        Phase::Join => 5,
        Phase::Up(i) => 4 - i,
        Phase::Hr => 2,
        Phase::Last => 1,
        Phase::Done => 0,
    }
}

/// The shape of a convolution to and from the feature channels, with `f` times
/// the working rows and columns.
pub open spec fn feature_key(g: Geometry, h: int, w: int, f: int, act: bool) -> ConvKey {
    ConvKey {
        c_in: g.num_feat,
        c_out: g.num_feat,
        h: (h * f) as usize,
        w: (w * f) as usize,
        act,
    }
}

/// The shapes of the convolutions of a step, in order.
pub open spec fn step_keys(g: Geometry, h: int, w: int, phase: Phase) -> Seq<ConvKey> {
    match phase {
        Phase::First => seq![
            ConvKey {
                c_in: g.first_in() as usize,
                c_out: g.num_feat,
                h: h as usize,
                w: w as usize,
                act: false,
            },
        ],
        Phase::Block(b) => if b < g.num_block {
            dense_keys(g, h, w, 15)
        } else {
            Seq::empty()
        },
        Phase::Join => seq![feature_key(g, h, w, 1, false)],
        Phase::Up(i) => seq![
            feature_key(
                g,
                h,
                w,
                if i == 0 {
                    2
                } else {
                    4
                },
                true,
            ),
        ],
        Phase::Hr => seq![feature_key(g, h, w, 4, true)],
        Phase::Last => seq![
            ConvKey {
                c_in: g.num_feat,
                c_out: g.out_ch,
                h: (h * 4) as usize,
                w: (w * 4) as usize,
                act: false,
            },
        ],
        _ => Seq::empty(),
    }
}

/// The stages that the first `n` steps from `phase` on announce.
pub open spec fn stages_from(g: Geometry, phase: Phase, n: nat) -> Seq<Stage>
    decreases n,
{
    if n == 0 {
        Seq::empty()
    } else {
        let rest = stages_from(g, phase_after(g, phase), (n - 1) as nat);
        match stage_at(g, phase) {
            Some(s) => seq![s] + rest,
            None => rest,
        }
    }
}

/// The shapes of the convolutions of the first `n` steps from `phase` on.
pub open spec fn keys_from(g: Geometry, h: int, w: int, phase: Phase, n: nat) -> Seq<ConvKey>
    decreases n,
{
    if n == 0 {
        Seq::empty()
    } else {
        step_keys(g, h, w, phase) + keys_from(g, h, w, phase_after(g, phase), (n - 1) as nat)
    }
}

impl<T> Pass<T> {
    /// The planes have the shapes that the phase asks for.
    pub open spec fn ready(self, g: Geometry) -> bool {
        let (h, w) = (self.h as int, self.w as int);
        let nf = g.num_feat as int;
        &&& fits(g, h, w)
        &&& match self.phase {
            Phase::Enter => {
                &&& shaped(self.cur, g.in_ch as int, self.cur.h as int, self.cur.w as int)
                &&& h == g.working(self.cur.h as int)
                &&& w == g.working(self.cur.w as int)
            },
            Phase::First => shaped(self.cur, g.first_in(), h, w),
            Phase::Block(b) => {
                &&& b <= g.num_block
                &&& shaped(self.cur, nf, h, w)
                &&& shaped(self.skip, nf, h, w)
                &&& shaped(self.ws, g.dense(), h, w)
            },
            Phase::Join => shaped(self.cur, nf, h, w) && shaped(self.skip, nf, h, w),
            Phase::Up(i) => {
                &&& i < 2
                &&& shaped(
                    self.cur,
                    nf,
                    if i == 0 {
                        h
                    } else {
                        h * 2
                    },
                    if i == 0 {
                        w
                    } else {
                        w * 2
                    },
                )
            },
            Phase::Hr => shaped(self.cur, nf, h * 4, w * 4),
            Phase::Last => shaped(self.cur, nf, h * 4, w * 4),
            Phase::Done => shaped(self.cur, g.out_ch as int, h * 4, w * 4),
        }
    }

    /// `next` is this pass one step on.
    pub open spec fn moved(self, net: Net<T>, next: Pass<T>) -> bool {
        let nb = net.g.num_block as int;
        let (cur, new) = (self.cur.data@, next.cur.data@);
        &&& next.h == self.h
        &&& next.w == self.w
        &&& next.phase == phase_after(net.g, self.phase)
        &&& match self.phase {
            Phase::Enter => new == net.entered(cur, self.cur.h as int, self.cur.w as int),
            Phase::First => net.first(cur, new) && next.skip.data@ == new,
            Phase::Block(b) => {
                &&& next.skip.data@ == self.skip.data@
                &&& if b < nb {
                    net.rrdb(b as int, cur, new)
                } else {
                    new == cur
                }
            },
            Phase::Join => net.closed(cur, self.skip.data@, new),
            Phase::Up(i) => net.up(
                i as int,
                if i == 0 {
                    1
                } else {
                    2
                },
                cur,
                new,
            ),
            Phase::Hr => net.feature(15 * nb + 4, 4, cur, true, new),
            Phase::Last => net.feature(15 * nb + 5, 4, cur, false, new),
            Phase::Done => new == cur,
        }
    }

    /// The pass has come this far on the image, which has `ih` rows and `iw`
    /// columns.
    pub open spec fn reached(self, net: Net<T>, image: Seq<T>, ih: int, iw: int) -> bool {
        let cur = self.cur.data@;
        match self.phase {
            Phase::Enter => cur == image && self.cur.h == ih && self.cur.w == iw,
            Phase::First => cur == net.entered(image, ih, iw),
            Phase::Block(b) => net.at_body(image, ih, iw, b as nat, self.skip.data@, cur),
            Phase::Join => net.at_body(
                image,
                ih,
                iw,
                net.g.num_block as nat,
                self.skip.data@,
                cur,
            ),
            Phase::Up(i) => net.risen(image, ih, iw, i as int, cur),
            Phase::Hr => net.risen(image, ih, iw, 2, cur),
            Phase::Last => net.high(image, ih, iw, cur),
            Phase::Done => net.network(image, ih, iw, cur),
        }
    }

    /// A step takes a pass from where it has come on an image to where the next
    /// phase begins on that image, so the steps together are the network.
    pub proof fn step_keeps_course(
        self,
        net: Net<T>,
        image: Seq<T>,
        ih: int,
        iw: int,
        next: Pass<T>,
    )
        requires
            self.ready(net.g),
            self.reached(net, image, ih, iw),
            self.moved(net, next),
        ensures
            next.reached(net, image, ih, iw),
    {
        let (cur, new, nb) = (self.cur.data@, next.cur.data@, net.g.num_block as int);
        match self.phase {
            Phase::First => {
                assert(net.body(new, 0, new));
            },
            Phase::Block(b) => {
                if b < nb {
                    let n = (b + 1) as nat;
                    assert(net.body(self.skip.data@, (n - 1) as nat, cur));
                    assert(net.rrdb(n - 1, cur, new));
                }
            },
            Phase::Join => {
                assert(net.at_body(image, ih, iw, net.g.num_block as nat, self.skip.data@, cur));
            },
            _ => {},
        }
    }
}

/// The sizes that the steps need.
proof fn lemma_sizes(g: Geometry, h: int, w: int, c: int)
    requires
        fits(g, h, w),
        c == g.num_feat || c == g.out_ch,
    ensures
        0 <= c * h * w <= c * (h * 2) * (w * 2) <= c * (h * 4) * (w * 4),
        h * w <= (h * 2) * (w * 2) <= (h * 4) * (w * 4),
        h * 4 <= usize::MAX,
        w * 4 <= usize::MAX,
        c * h <= c * h * w,
        c * (h * 2) <= c * (h * 2) * (w * 2),
        c * (h * 4) <= c * (h * 4) * (w * 4),
{
    assert(0 <= c * h * w <= c * (h * 2) * (w * 2) <= c * (h * 4) * (w * 4)) by (nonlinear_arith)
        requires
            0 <= c,
            0 < h,
            0 < w,
    ;
    assert(h * w <= (h * 2) * (w * 2) <= (h * 4) * (w * 4)) by (nonlinear_arith)
        requires
            0 < h,
            0 < w,
    ;
    assert(h * 4 <= (h * 4) * (w * 4) && w * 4 <= (h * 4) * (w * 4)) by (nonlinear_arith)
        requires
            0 < h,
            0 < w,
    ;
    assert(c * h <= c * h * w && c * (h * 2) <= c * (h * 2) * (w * 2) && c * (h * 4) <= c * (h * 4)
        * (w * 4)) by (nonlinear_arith)
        requires
            0 <= c,
            0 < h,
            0 < w,
    ;
}

impl<T: Copy + Send + Sync> Pass<T> {
    /// A pass that is about to enter `input`.
    pub fn new(geom: &Geometry, input: &Plane<T>) -> (r: Pass<T>)
        ensures
            r.phase == Phase::Enter,
            r.h == geom.working(input.h as int),
            r.w == geom.working(input.w as int),
            r.cur.c == input.c,
            r.cur.h == input.h,
            r.cur.w == input.w,
            r.cur.data@ == input.data@,
    {
        let (h, w) = if geom.scale == 2 {
            (input.h / 2, input.w / 2)
        } else {
            (input.h, input.w)
        };
        Pass {
            phase: Phase::Enter,
            h,
            w,
            cur: input.clone(),
            skip: Plane { c: 0, h: 0, w: 0, data: Vec::new() },
            ws: Plane { c: 0, h: 0, w: 0, data: Vec::new() },
        }
    }

    /// The stage that the next step announces, if any.
    pub fn stage(&self, geom: &Geometry) -> (r: Option<Stage>)
        ensures
            r == stage_at(*geom, self.phase),
    {
        match self.phase {
            Phase::Enter => if geom.scale == 2 {
                Some(Stage::PixelUnshuffle)
            } else {
                None
            },
            Phase::First => Some(Stage::ConvFirst),
            Phase::Block(b) => if b == 0 {
                Some(Stage::Body)
            } else {
                None
            },
            Phase::Join => Some(Stage::ConvBody),
            Phase::Up(i) => if i == 0 {
                Some(Stage::Upsample)
            } else {
                None
            },
            Phase::Hr => Some(Stage::Head),
            _ => None,
        }
    }

    /// Enters the image.
    fn enter(&mut self, geom: &Geometry, wanted: bool) -> (d: Vec<Dump<T>>)
        requires
            old(self).ready(*geom),
            old(self).phase == Phase::Enter,
        ensures
            final(self).ready(*geom),
            final(self).phase == Phase::First,
            final(self).h == old(self).h,
            final(self).w == old(self).w,
            final(self).cur.data@ == entered_of(*geom, old(self).cur),
            dumped_one(wanted && geom.scale == 2, "00_unshuffle"@, final(self).cur, d@),
    {
        self.phase = Phase::First;
        if geom.scale == 2 {
            proof {
                let (c, ih, iw) = (self.cur.c as int, self.cur.h as int, self.cur.w as int);
                let (h, w) = (ih / 2, iw / 2);
                assert(self.cur.data.len() == self.cur.data@.len());
                assert(c * 4 <= c * 4 * h * w && c * 4 * h * w <= c * ih * iw) by (nonlinear_arith)
                    requires
                        0 <= c,
                        1 <= h,
                        1 <= w,
                        2 * h <= ih,
                        2 * w <= iw,
                ;
            }
            self.cur = pixel_unshuffle2(&self.cur);
        }
        dump_one(wanted && geom.scale == 2, "00_unshuffle", &self.cur)
    }

    /// The first convolution, which is kept for the global skip; the dense
    /// workspace is laid out here.
    fn first<A: Arith<T> + Sync>(
        &mut self,
        ops: &A,
        model: &Model<T>,
        wanted: bool,
        run: &mut HostRun,
    ) -> (d: Vec<Dump<T>>)
        requires
            model.wf(),
            old(self).ready(model.geom),
            old(self).phase == Phase::First,
        ensures
            final(self).ready(model.geom),
            old(self).moved(
                host_net(ops, model, old(self).h as int, old(self).w as int),
                *final(self),
            ),
            dumped_one(wanted, "01_conv_first"@, final(self).cur, d@),
            old(run).ran(
                step_keys(model.geom, old(self).h as int, old(self).w as int, old(self).phase),
                *final(run),
            ),
    {
        let g = model.geom;
        let (h, w) = (self.h, self.w);
        proof {
            lemma_sizes(g, h as int, w as int, g.num_feat as int);
            lemma_prefix(g, h as int, w as int, 0);
            assert(model.layer(0).shaped(g.layer_in(0)));
            assert(self.cur.data.len() == self.cur.data@.len());
            let (c, h, w) = (g.dense(), h as int, w as int);
            assert(c * h <= c * h * w) by (nonlinear_arith)
                requires
                    0 <= c,
                    0 < h,
                    0 < w,
            ;
        }
        let mut out: Plane<T> = Plane { c: 0, h, w, data: Vec::new() };
        conv_to(ops, self.cur.data.as_slice(), self.cur.c, &mut out, &model.conv_first, false, run);
        assert(self.cur.data@.take(self.cur.c * h * w) =~= self.cur.data@);
        let zero = ops.zero();
        self.ws = Plane::new(g.num_feat + 4 * g.num_grow_ch, h, w, zero);
        self.skip = out.clone();
        self.cur = out;
        self.phase = Phase::Block(0);
        dump_one(wanted, "01_conv_first", &self.cur)
    }

    /// Block `b`, or the end of the body.
    fn block<A: Arith<T> + Sync>(
        &mut self,
        ops: &A,
        model: &Model<T>,
        b: usize,
        wanted: bool,
        run: &mut HostRun,
    ) -> (d: Vec<Dump<T>>)
        requires
            model.wf(),
            old(self).ready(model.geom),
            old(self).phase == Phase::Block(b),
        ensures
            final(self).ready(model.geom),
            old(self).moved(
                host_net(ops, model, old(self).h as int, old(self).w as int),
                *final(self),
            ),
            step_dumps(
                host_net(ops, model, old(self).h as int, old(self).w as int),
                *old(self),
                *final(self),
                wanted,
                d@,
            ),
            old(run).ran(
                step_keys(model.geom, old(self).h as int, old(self).w as int, old(self).phase),
                *final(run),
            ),
    {
        if b < model.geom.num_block {
            let (cur, d) = rrdb_cpu(ops, model, b, &self.cur, &mut self.ws, wanted, run);
            self.cur = cur;
            self.phase = Phase::Block(b + 1);
            d
        } else {
            self.phase = Phase::Join;
            assert(run.timed() + Seq::<ConvKey>::empty() =~= run.timed());
            dump_one(wanted, "05_after_body", &self.cur)
        }
    }

    /// The body's convolution and the global skip.
    fn join<A: Arith<T> + Sync>(
        &mut self,
        ops: &A,
        model: &Model<T>,
        wanted: bool,
        run: &mut HostRun,
    ) -> (d: Vec<Dump<T>>)
        requires
            model.wf(),
            old(self).ready(model.geom),
            old(self).phase == Phase::Join,
        ensures
            final(self).ready(model.geom),
            old(self).moved(
                host_net(ops, model, old(self).h as int, old(self).w as int),
                *final(self),
            ),
            dumped_one(wanted, "06_after_residual"@, final(self).cur, d@),
            old(run).ran(
                step_keys(model.geom, old(self).h as int, old(self).w as int, old(self).phase),
                *final(run),
            ),
    {
        let g = model.geom;
        let (h, w) = (self.h, self.w);
        let ghost l = 15 * g.num_block + 1;
        proof {
            lemma_sizes(g, h as int, w as int, g.num_feat as int);
            assert(model.layer(l).shaped(g.layer_in(l)));
            assert(self.cur.data.len() == self.cur.data@.len());
        }
        let mut feat: Plane<T> = Plane { c: 0, h, w, data: Vec::new() };
        conv_to(ops, self.cur.data.as_slice(), g.num_feat, &mut feat, &model.conv_body, false, run);
        assert(self.cur.data@.take(g.num_feat * h * w) =~= self.cur.data@);
        let data = sum_of(ops, self.skip.data.as_slice(), feat.data.as_slice());
        proof {
            let net = host_net(ops, model, h as int, w as int);
            assert(net.feature(l, 1, self.cur.data@, false, feat.data@));
        }
        self.cur = Plane { c: g.num_feat, h, w, data };
        self.phase = Phase::Up(0);
        dump_one(wanted, "06_after_residual", &self.cur)
    }

    /// Upsampling stage `i`.
    fn up<A: Arith<T> + Sync>(
        &mut self,
        ops: &A,
        model: &Model<T>,
        i: usize,
        wanted: bool,
        run: &mut HostRun,
    ) -> (d: Vec<Dump<T>>)
        requires
            model.wf(),
            old(self).ready(model.geom),
            old(self).phase == Phase::Up(i),
        ensures
            final(self).ready(model.geom),
            old(self).moved(
                host_net(ops, model, old(self).h as int, old(self).w as int),
                *final(self),
            ),
            dumped_one(
                wanted,
                if i == 0 {
                    "07_up1"@
                } else {
                    "08_up2"@
                },
                final(self).cur,
                d@,
            ),
            old(run).ran(
                step_keys(model.geom, old(self).h as int, old(self).w as int, old(self).phase),
                *final(run),
            ),
    {
        let g = model.geom;
        let ghost l = 15 * g.num_block + 2 + i;
        proof {
            lemma_sizes(g, self.h as int, self.w as int, g.num_feat as int);
            assert(model.layer(l).shaped(g.layer_in(l)));
            assert(model.layer(l).c_out == g.num_feat);
            assert(self.h * 2 * 2 == self.h * 4 && self.w * 2 * 2 == self.w * 4);
        }
        let u = upsample2x_nearest(&self.cur);
        assert(u.data.len() == u.data@.len());
        let conv = if i == 0 {
            &model.conv_up1
        } else {
            &model.conv_up2
        };
        assert(*conv == model.layer(l));
        let mut out: Plane<T> = Plane { c: 0, h: u.h, w: u.w, data: Vec::new() };
        conv_to(ops, u.data.as_slice(), u.c, &mut out, conv, true, run);
        assert(u.data@.take(u.c * u.h * u.w) =~= u.data@);
        self.cur = out;
        self.phase = if i == 0 {
            Phase::Up(1)
        } else {
            Phase::Hr
        };
        proof {
            let net = host_net(ops, model, self.h as int, self.w as int);
            let f: int = if i == 0 {
                1
            } else {
                2
            };
            assert(self.h * f * 2 == self.h * (f * 2) && self.w * f * 2 == self.w * (f * 2));
            assert(net.up(i as int, f, old(self).cur.data@, self.cur.data@));
        }
        let name = if i == 0 {
            "07_up1"
        } else {
            "08_up2"
        };
        dump_one(wanted, name, &self.cur)
    }

    /// One of the head's convolutions.
    fn head<A: Arith<T> + Sync>(
        &mut self,
        ops: &A,
        model: &Model<T>,
        wanted: bool,
        run: &mut HostRun,
    ) -> (d: Vec<Dump<T>>)
        requires
            model.wf(),
            old(self).ready(model.geom),
            old(self).phase == Phase::Hr || old(self).phase == Phase::Last,
        ensures
            final(self).ready(model.geom),
            old(self).moved(
                host_net(ops, model, old(self).h as int, old(self).w as int),
                *final(self),
            ),
            dumped_one(
                wanted,
                if old(self).phase == Phase::Hr {
                    "09_hr"@
                } else {
                    "10_out"@
                },
                final(self).cur,
                d@,
            ),
            old(run).ran(
                step_keys(model.geom, old(self).h as int, old(self).w as int, old(self).phase),
                *final(run),
            ),
    {
        let g = model.geom;
        let hr = self.phase == Phase::Hr;
        let ghost l = if hr {
            15 * g.num_block + 4
        } else {
            15 * g.num_block + 5
        };
        proof {
            lemma_sizes(g, self.h as int, self.w as int, g.num_feat as int);
            lemma_sizes(g, self.h as int, self.w as int, g.out_ch as int);
            assert(model.layer(l).shaped(g.layer_in(l)));
            assert(self.cur.data.len() == self.cur.data@.len());
        }
        let conv = if hr {
            &model.conv_hr
        } else {
            &model.conv_last
        };
        assert(*conv == model.layer(l));
        let mut out: Plane<T> = Plane { c: 0, h: self.cur.h, w: self.cur.w, data: Vec::new() };
        conv_to(ops, self.cur.data.as_slice(), g.num_feat, &mut out, conv, hr, run);
        assert(self.cur.data@.take(g.num_feat * out.h * out.w) =~= self.cur.data@);
        self.cur = out;
        self.phase = if hr {
            Phase::Last
        } else {
            Phase::Done
        };
        let name = if hr {
            "09_hr"
        } else {
            "10_out"
        };
        dump_one(wanted, name, &self.cur)
    }
}

/// What enters the first convolution, of an image plane.
pub open spec fn entered_of<T>(g: Geometry, image: Plane<T>) -> Seq<T> {
    if g.scale == 2 {
        unshuffled(image.data@, g.in_ch as int, image.h as int, image.w as int)
    } else {
        image.data@
    }
}

/// `d` is what a step leaves to be written out.
pub open spec fn step_dumps<T>(
    net: Net<T>,
    was: Pass<T>,
    now: Pass<T>,
    wanted: bool,
    d: Seq<Dump<T>>,
) -> bool {
    match was.phase {
        Phase::Enter => dumped_one(wanted && net.g.scale == 2, "00_unshuffle"@, now.cur, d),
        Phase::First => dumped_one(wanted, "01_conv_first"@, now.cur, d),
        Phase::Block(b) => if b >= net.g.num_block {
            dumped_one(wanted, "05_after_body"@, now.cur, d)
        } else if wanted && b == 0 {
            first_dense(net, was.cur.data@, d)
        } else {
            d.len() == 0
        },
        Phase::Join => dumped_one(wanted, "06_after_residual"@, now.cur, d),
        Phase::Up(i) => dumped_one(
            wanted,
            if i == 0 {
                "07_up1"@
            } else {
                "08_up2"@
            },
            now.cur,
            d,
        ),
        Phase::Hr => dumped_one(wanted, "09_hr"@, now.cur, d),
        Phase::Last => dumped_one(wanted, "10_out"@, now.cur, d),
        Phase::Done => d.len() == 0,
    }
}

impl<T: Copy + Send + Sync> Pass<T> {
    /// One step: it moves the pass to the next phase, and hands out what is to be
    /// written out of it, if that is `wanted`.
    pub fn step<A: Arith<T> + Sync>(
        &mut self,
        ops: &A,
        model: &Model<T>,
        wanted: bool,
        run: &mut HostRun,
    ) -> (d: Vec<Dump<T>>)
        requires
            model.wf(),
            old(self).ready(model.geom),
        ensures
            final(self).ready(model.geom),
            old(self).moved(
                host_net(ops, model, old(self).h as int, old(self).w as int),
                *final(self),
            ),
            step_dumps(
                host_net(ops, model, old(self).h as int, old(self).w as int),
                *old(self),
                *final(self),
                wanted,
                d@,
            ),
            old(run).ran(
                step_keys(model.geom, old(self).h as int, old(self).w as int, old(self).phase),
                *final(run),
            ),
    {
        assert(run.timed() + Seq::<ConvKey>::empty() =~= run.timed());
        match self.phase {
            Phase::Enter => self.enter(&model.geom, wanted),
            Phase::First => self.first(ops, model, wanted, run),
            Phase::Block(b) => self.block(ops, model, b, wanted, run),
            Phase::Join => self.join(ops, model, wanted, run),
            Phase::Up(i) => self.up(ops, model, i, wanted, run),
            Phase::Hr | Phase::Last => self.head(ops, model, wanted, run),
            Phase::Done => Vec::new(),
        }
    }
}

/// The stages of a whole pass, in order.
pub open spec fn all_stages(g: Geometry) -> Seq<Stage> {
    (if g.scale == 2 {
        seq![Stage::PixelUnshuffle]
    } else {
        Seq::empty()
    }) + seq![Stage::ConvFirst, Stage::Body, Stage::ConvBody, Stage::Upsample, Stage::Head]
}

/// Within the body nothing is announced.
proof fn lemma_body_stages(g: Geometry, b: usize)
    requires
        0 < b <= g.num_block,
    ensures
        stages_from(g, Phase::Block(b), (g.num_block - b + 6) as nat) == stages_from(
            g,
            Phase::Join,
            5,
        ),
    decreases g.num_block - b,
{
    let n = (g.num_block - b + 6) as nat;
    if b < g.num_block {
        lemma_body_stages(g, (b + 1) as usize);
    }
    assert((n - 1) as nat == (g.num_block - b + 5) as nat);
}

/// The steps of a pass announce the stages in order, each once: the x2 model
/// begins with one more, and the number of blocks makes no difference.
pub proof fn stages_in_order(g: Geometry)
    ensures
        stages_from(g, Phase::Enter, (g.num_block + 8) as nat) == all_stages(g),
{
    let (p0, p1) = (Phase::Block(0), phase_after(g, Phase::Block(0)));
    let n = g.num_block as nat;
    assert(stages_from(g, Phase::Join, 5) =~= seq![Stage::ConvBody, Stage::Upsample, Stage::Head])
        by {
        reveal_with_fuel(stages_from, 6);
    }
    if g.num_block > 0 {
        lemma_body_stages(g, 1);
    }
    assert(stages_from(g, p1, n + 5) == stages_from(g, Phase::Join, 5));
    assert((n + 6 - 1) as nat == n + 5);
    assert(stages_from(g, p0, n + 6) =~= seq![Stage::Body] + stages_from(g, Phase::Join, 5));
    assert((n + 7 - 1) as nat == n + 6 && (n + 8 - 1) as nat == n + 7);
    assert(stages_from(g, Phase::First, n + 7) =~= seq![Stage::ConvFirst] + stages_from(
        g,
        p0,
        n + 6,
    ));
    assert(stages_from(g, Phase::Enter, n + 8) =~= all_stages(g));
}

/// The full forward pass on the host, and the stages it went through.
pub fn forward_cpu<T: Copy + Send + Sync, A: Arith<T> + Sync>(
    ops: &A,
    model: &Model<T>,
    input: &Plane<T>,
    run: &mut HostRun,
) -> (r: (Plane<T>, Vec<Stage>))
    requires
        model.wf(),
        input.wf(),
        input.c == model.geom.in_ch,
        fits(
            model.geom,
            model.geom.working(input.h as int),
            model.geom.working(input.w as int),
        ),
    ensures
        ({
            let g = model.geom;
            let (h, w) = (g.working(input.h as int), g.working(input.w as int));
            &&& shaped(r.0, g.out_ch as int, h * 4, w * 4)
            &&& host_net(ops, model, h, w).network(
                input.data@,
                input.h as int,
                input.w as int,
                r.0.data@,
            )
            &&& r.1@ == all_stages(g)
            &&& old(run).ran(
                keys_from(g, h, w, Phase::Enter, (g.num_block + 8) as nat),
                *final(run),
            )
        }),
{
    let mut pass = Pass::new(&model.geom, input);
    let mut stages: Vec<Stage> = Vec::new();
    let ghost g = model.geom;
    let ghost (h, w) = (pass.h as int, pass.w as int);
    let ghost net = host_net(ops, model, h, w);
    let ghost all = keys_from(g, h, w, Phase::Enter, (g.num_block + 8) as nat);
    let ghost mut done: Seq<ConvKey> = Seq::empty();
    proof {
        stages_in_order(g);
        assert(stages@ + all_stages(g) =~= all_stages(g));
        assert(run.timed() + done =~= run.timed());
        assert(done + all =~= all);
    }
    while pass.phase != Phase::Done
        invariant
            g == model.geom,
            model.wf(),
            pass.ready(g),
            h == pass.h,
            w == pass.w,
            net == host_net(ops, model, h, w),
            pass.reached(net, input.data@, input.h as int, input.w as int),
            stages@ + stages_from(g, pass.phase, steps_left(g, pass.phase) as nat) == all_stages(g),
            done + keys_from(g, h, w, pass.phase, steps_left(g, pass.phase) as nat) == all,
            old(run).ran(done, *run),
        decreases steps_left(g, pass.phase),
    {
        let ghost was = pass;
        let ghost ran = *run;
        let ghost seen = stages@;
        let ghost n = steps_left(g, pass.phase) as nat;
        if let Some(s) = pass.stage(&model.geom) {
            stages.push(s);
        }
        pass.step(ops, model, false, run);
        proof {
            was.step_keeps_course(net, input.data@, input.h as int, input.w as int, pass);
            let keys = step_keys(g, h, w, was.phase);
            old(run).lemma_ran(done, ran, keys, *run);
            assert((n - 1) as nat == steps_left(g, pass.phase) as nat);
            assert(done + (keys + keys_from(g, h, w, pass.phase, (n - 1) as nat)) =~= done + keys
                + keys_from(g, h, w, pass.phase, (n - 1) as nat));
            done = done + keys;
            let rest = stages_from(g, pass.phase, (n - 1) as nat);
            assert(stages@ + rest =~= seen + stages_from(g, was.phase, n));
        }
    }
    proof {
        assert(done + keys_from(g, h, w, Phase::Done, 0) =~= done);
        assert(stages@ + stages_from(g, Phase::Done, 0) =~= stages@);
    }
    (pass.cur, stages)
}

/// The network enlarges an image by its scale: an x4 model's output has four
/// times the rows of any image, and an x2 model's twice the rows of an image with
/// an even number of them; columns alike.
pub proof fn output_is_scaled(g: Geometry, n: int)
    requires
        0 <= n,
        g.scale == 4 || (g.scale == 2 && n % 2 == 0),
    ensures
        g.working(n) * 4 == n * g.scale,
{
}

} // verus!
