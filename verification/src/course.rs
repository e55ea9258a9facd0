//! A pass on the host, spelled out: what it announces, what it times, and what it
//! leaves to be written out.

use vstd::prelude::*;

use crate::arith::leaky_relu;
use crate::arith::residual;
use crate::arith::Arith;
use crate::forward::all_stages;
use crate::forward::can_hold;
use crate::forward::dense_key;
use crate::forward::dense_keys;
use crate::forward::first_dense_from;
use crate::forward::fits;
use crate::forward::host_net;
use crate::forward::keys_from;
use crate::forward::lemma_prefix;
use crate::forward::phase_after;
use crate::forward::prefix;
use crate::forward::residual_of;
use crate::forward::step_dumps;
use crate::forward::step_keys;
use crate::forward::sum_of;
use crate::forward::Dump;
use crate::forward::Pass;
use crate::forward::Phase;
use crate::forward::Stage;
use crate::model::Geometry;
use crate::model::Model;
use crate::profile::ConvKey;
use crate::profile::HostRun;
use crate::unrolled::lemma_grown_tape;

verus! {

/// The leaky rectifier keeps a value from zero up, and takes a fifth of it below. The
/// fifth is returned.
pub proof fn rectifier_keeps_or_takes_a_fifth<T: Copy, A: Arith<T>>(ops: &A, v: T, r: T) -> (s: T)
    requires
        call_ensures(leaky_relu::<T, A>, (ops, v), r),
    ensures
        ({
            ||| call_ensures(<A as Arith<T>>::at_least_zero, (ops, v), true) && r == v
            ||| {
                &&& call_ensures(<A as Arith<T>>::at_least_zero, (ops, v), false)
                &&& call_ensures(<A as Arith<T>>::fifth, (ops,), s)
                &&& call_ensures(<A as Arith<T>>::times, (ops, s, v), r)
            }
        }),
{
    choose|s: T|
        #[trigger] crate::arith::fifth_is(ops, s) && crate::arith::times_is(ops, s, v, r)
}

/// A scaled residual is a fifth of one value and the other. The fifth and the product
/// are returned.
pub proof fn residual_adds_a_fifth<T: Copy, A: Arith<T>>(ops: &A, a: T, b: T, r: T) -> (s: (T, T))
    requires
        call_ensures(residual::<T, A>, (ops, a, b), r),
    ensures
        call_ensures(<A as Arith<T>>::fifth, (ops,), s.0),
        call_ensures(<A as Arith<T>>::times, (ops, a, s.0), s.1),
        call_ensures(<A as Arith<T>>::plus, (ops, s.1, b), r),
{
    choose|s: T, m: T|
        {
            &&& crate::arith::fifth_is(ops, s)
            &&& #[trigger] crate::arith::times_is(ops, a, s, m)
            &&& crate::arith::plus_is(ops, m, b, r)
        }
}

/// The same of whole planes, value by value.
pub proof fn residuals_add_a_fifth<T: Copy, A: Arith<T>>(
    ops: &A,
    branch: &[T],
    base: &[T],
    r: Vec<T>,
    i: int,
) -> (s: (T, T))
    requires
        call_ensures(residual_of::<T, A>, (ops, branch, base), r),
        0 <= i < base@.len(),
    ensures
        r@.len() == base@.len(),
        call_ensures(<A as Arith<T>>::fifth, (ops,), s.0),
        call_ensures(<A as Arith<T>>::times, (ops, branch@[i], s.0), s.1),
        call_ensures(<A as Arith<T>>::plus, (ops, s.1, base@[i]), r@[i]),
{
    assert(crate::arith::residual_is(ops, branch@[i], base@[i], r@[i]));
    choose|s: T, m: T|
        {
            &&& crate::arith::fifth_is(ops, s)
            &&& #[trigger] crate::arith::times_is(ops, branch@[i], s, m)
            &&& crate::arith::plus_is(ops, m, base@[i], r@[i])
        }
}

/// A sum of planes adds value to value.
pub proof fn sums_add_value_to_value<T: Copy, A: Arith<T>>(
    ops: &A,
    base: &[T],
    branch: &[T],
    r: Vec<T>,
    i: int,
)
    requires
        call_ensures(sum_of::<T, A>, (ops, base, branch), r),
        0 <= i < base@.len(),
    ensures
        r@.len() == base@.len(),
        call_ensures(<A as Arith<T>>::plus, (ops, base@[i], branch@[i]), r@[i]),
{
    assert(crate::arith::plus_is(ops, base@[i], branch@[i], r@[i]));
}

/// The x2 model works on half the rows and columns, with four times the channels; any
/// other on the image as it is. The dense workspace holds the features and four
/// growths.
pub proof fn working_sizes(g: &Geometry, n: int, first: usize, dense: usize)
    requires
        call_ensures(Geometry::first_in_ch, (g,), first),
        call_ensures(Geometry::dense_width, (g,), dense),
    ensures
        g.scale == 2 ==> first == 4 * g.in_ch && g.working(n) == n / 2,
        g.scale != 2 ==> first == g.in_ch && g.working(n) == n,
        dense == g.num_feat + 4 * g.num_grow_ch,
{
}

/// A pass can be held where there are pixels, and where the workspace and the largest
/// planes, at four times the working rows and columns, can be counted.
pub proof fn passes_that_can_be_held(g: &Geometry, h: usize, w: usize, r: bool)
    requires
        call_ensures(can_hold, (g, h, w), r),
    ensures
        r <==> {
            &&& h > 0
            &&& w > 0
            &&& 16 * (h * w) <= usize::MAX
            &&& g.num_feat + 4 * g.num_grow_ch <= usize::MAX
            &&& (g.num_feat + 4 * g.num_grow_ch) * h * w <= usize::MAX
            &&& 16 * (g.num_feat * h * w) <= usize::MAX
            &&& 16 * (g.out_ch * h * w) <= usize::MAX
        },
{
    let (h, w) = (h as int, w as int);
    let (a, b) = (g.num_feat as int, g.out_ch as int);
    assert((h * 4) * (w * 4) == 16 * (h * w)) by (nonlinear_arith);
    assert(a * (h * 4) * (w * 4) == 16 * (a * h * w)) by (nonlinear_arith);
    assert(b * (h * 4) * (w * 4) == 16 * (b * h * w)) by (nonlinear_arith);
}

/// The names of the stages.
pub proof fn stage_names(s: &Stage, r: &'static str)
    requires
        call_ensures(Stage::name, (s,), r),
    ensures
        *s == Stage::PixelUnshuffle ==> r@ == "pixel_unshuffle"@,
        *s == Stage::ConvFirst ==> r@ == "conv_first"@,
        *s == Stage::Body ==> r@ == "body"@,
        *s == Stage::ConvBody ==> r@ == "conv_body"@,
        *s == Stage::Upsample ==> r@ == "upsample"@,
        *s == Stage::Head ==> r@ == "head"@,
{
}

/// The stages that a whole pass announces.
pub proof fn stages_of_a_pass(g: Geometry)
    ensures
        g.scale == 2 ==> all_stages(g) == seq![
            Stage::PixelUnshuffle,
            Stage::ConvFirst,
            Stage::Body,
            Stage::ConvBody,
            Stage::Upsample,
            Stage::Head,
        ],
        g.scale != 2 ==> all_stages(g) == seq![
            Stage::ConvFirst,
            Stage::Body,
            Stage::ConvBody,
            Stage::Upsample,
            Stage::Head,
        ],
{
}

/// The stage that a step announces.
pub proof fn stage_of_a_step<T: Copy + Send + Sync>(
    p: &Pass<T>,
    g: &Geometry,
    r: Option<Stage>,
)
    requires
        call_ensures(Pass::<T>::stage, (p, g), r),
    ensures
        r == Some(Stage::PixelUnshuffle) <==> p.phase == Phase::Enter && g.scale == 2,
        r == Some(Stage::ConvFirst) <==> p.phase == Phase::First,
        r == Some(Stage::Body) <==> p.phase == Phase::Block(0),
        r == Some(Stage::ConvBody) <==> p.phase == Phase::Join,
        r == Some(Stage::Upsample) <==> p.phase == Phase::Up(0),
        r == Some(Stage::Head) <==> p.phase == Phase::Hr,
{
}

/// Where timings are kept, a run gains the shapes of its convolutions, in order; what
/// was there stays.
pub proof fn timings_are_appended(was: HostRun, ks: Seq<ConvKey>, now: HostRun)
    requires
        was.ran(ks, now),
    ensures
        now.oc == was.oc && now.profiling == was.profiling,
        now.timings@.len() == was.timings@.len() + if was.profiling {
            ks.len()
        } else {
            0
        },
        forall|i: int|
            0 <= i < was.timings@.len() ==> #[trigger] now.timings@[i] == was.timings@[i],
        forall|i: int|
            was.timings@.len() <= i < now.timings@.len() ==> (#[trigger] now.timings@[i]).key
                == ks[i - was.timings@.len()],
{
    assert(now.timed().len() == now.timings@.len());
    assert(was.timed().len() == was.timings@.len());
    assert forall|i: int| was.timings@.len() <= i < now.timings@.len() implies (
    #[trigger] now.timings@[i]).key == ks[i - was.timings@.len()] by {
        assert(now.timed()[i] == now.timings@[i].key);
    }
}

/// The shapes of the steps from block `b` on.
proof fn lemma_block_keys(g: Geometry, h: int, w: int, b: usize)
    requires
        b <= g.num_block,
    ensures
        ({
            let m = 15 * (g.num_block - b);
            let s = keys_from(g, h, w, Phase::Block(b), (g.num_block - b + 6) as nat);
            &&& s.len() == m + 5
            &&& forall|j: int| 0 <= j < m ==> #[trigger] s[j] == dense_key(g, h, w, j % 5)
            &&& s.skip(m) == step_keys(g, h, w, Phase::Join) + step_keys(g, h, w, Phase::Up(0))
                + step_keys(g, h, w, Phase::Up(1)) + step_keys(g, h, w, Phase::Hr) + step_keys(
                g,
                h,
                w,
                Phase::Last,
            )
        }),
    decreases g.num_block - b,
{
    let n = (g.num_block - b + 6) as nat;
    let m = 15 * (g.num_block - b);
    let s = keys_from(g, h, w, Phase::Block(b), n);
    if b < g.num_block {
        let c = (b + 1) as usize;
        lemma_block_keys(g, h, w, c);
        let t = keys_from(g, h, w, Phase::Block(c), (g.num_block - c + 6) as nat);
        assert((n - 1) as nat == (g.num_block - c + 6) as nat);
        assert(s == dense_keys(g, h, w, 15) + t);
        assert forall|j: int| 0 <= j < m implies #[trigger] s[j] == dense_key(g, h, w, j % 5) by {
            if j >= 15 {
                assert(s[j] == t[j - 15]);
                assert((j - 15) % 5 == j % 5);
            }
        }
        assert(s.skip(m) =~= t.skip(m - 15));
    } else {
        reveal_with_fuel(keys_from, 7);
        assert((n - 1) as nat == 5);
        let tail = step_keys(g, h, w, Phase::Join) + step_keys(g, h, w, Phase::Up(0)) + step_keys(
            g,
            h,
            w,
            Phase::Up(1),
        ) + step_keys(g, h, w, Phase::Hr) + step_keys(g, h, w, Phase::Last);
        assert(phase_after(g, Phase::Block(b)) == Phase::Join);
        assert(s =~= tail);
        assert(s.skip(m) =~= tail);
    }
}

/// How many they are.
pub(crate) proof fn lemma_pass_keys(g: Geometry, h: int, w: int)
    ensures
        keys_from(g, h, w, Phase::Enter, (g.num_block + 8) as nat).len() == 15 * g.num_block + 6,
{
    let nb = g.num_block as nat;
    lemma_block_keys(g, h, w, 0);
    assert((nb + 8 - 1) as nat == nb + 7 && (nb + 7 - 1) as nat == nb + 6);
    let t = keys_from(g, h, w, Phase::Block(0), nb + 6);
    assert(keys_from(g, h, w, Phase::First, nb + 7) == step_keys(g, h, w, Phase::First) + t);
}

/// The shapes of the convolutions that a whole pass times: the first; the five of each
/// dense block, which read one growth more each time; the body's; and at twice and four
/// times the working rows and columns those of the upsampling and the head.
pub proof fn shapes_of_a_pass(g: Geometry, h: int, w: int, b: int, r: int, k: int)
    requires
        fits(g, h, w),
        4 * g.in_ch <= usize::MAX,
    ensures
        ({
            let s = keys_from(g, h, w, Phase::Enter, (g.num_block + 8) as nat);
            let n = 15 * g.num_block;
            let (nf, ng) = (g.num_feat, g.num_grow_ch);
            &&& s.len() == n + 6
            &&& s[0].c_in == (if g.scale == 2 {
                4 * g.in_ch
            } else {
                g.in_ch as int
            }) && s[0].c_out == nf && s[0].h == h && s[0].w == w && !s[0].act
            &&& 0 <= b < g.num_block && 0 <= r < 3 && 0 <= k < 5 ==> {
                let c = s[1 + 15 * b + 5 * r + k];
                &&& c.c_in == nf + k * ng
                &&& c.c_out == if k == 4 {
                    nf
                } else {
                    ng
                }
                &&& c.h == h && c.w == w
                &&& c.act == (k != 4)
            }
            &&& s[n + 1].c_in == nf && s[n + 1].c_out == nf && s[n + 1].h == h && s[n + 1].w == w
                && !s[n + 1].act
            &&& s[n + 2].c_in == nf && s[n + 2].c_out == nf && s[n + 2].h == 2 * h && s[n + 2].w
                == 2 * w && s[n + 2].act
            &&& s[n + 3].c_in == nf && s[n + 3].c_out == nf && s[n + 3].h == 4 * h && s[n + 3].w
                == 4 * w && s[n + 3].act
            &&& s[n + 4].c_in == nf && s[n + 4].c_out == nf && s[n + 4].h == 4 * h && s[n + 4].w
                == 4 * w && s[n + 4].act
            &&& s[n + 5].c_in == nf && s[n + 5].c_out == g.out_ch && s[n + 5].h == 4 * h && s[n
                + 5].w == 4 * w && !s[n + 5].act
        }),
{
    let nb = g.num_block as nat;
    let n = 15 * g.num_block;
    let s = keys_from(g, h, w, Phase::Enter, nb + 8);
    let t = keys_from(g, h, w, Phase::Block(0), nb + 6);
    lemma_block_keys(g, h, w, 0);
    assert((nb + 8 - 1) as nat == nb + 7 && (nb + 7 - 1) as nat == nb + 6);
    let f = step_keys(g, h, w, Phase::First);
    assert(keys_from(g, h, w, Phase::First, nb + 7) == f + t);
    assert(s =~= f + t);
    let tail = t.skip(n);
    assert forall|i: int| 0 <= i < 5 implies s[n + 1 + i] == #[trigger] tail[i] by {}
    assert(h * 4 <= usize::MAX && w * 4 <= usize::MAX) by {
        assert(h * 4 <= (h * 4) * (w * 4) && w * 4 <= (h * 4) * (w * 4)) by (nonlinear_arith)
            requires
                0 < h,
                0 < w,
        ;
    }
    assert(s[n + 1 + 0] == tail[0] && s[n + 1 + 1] == tail[1] && s[n + 1 + 2] == tail[2]);
    assert(s[n + 1 + 3] == tail[3] && s[n + 1 + 4] == tail[4]);
    if 0 <= b < g.num_block && 0 <= r < 3 && 0 <= k < 5 {
        let j = 15 * b + 5 * r + k;
        assert(s[1 + j] == t[j]);
        assert(j % 5 == k);
        assert(k * g.num_grow_ch <= 4 * g.num_grow_ch) by (nonlinear_arith)
            requires
                0 <= k < 5,
                0 <= g.num_grow_ch,
        ;
        assert(0 <= k * g.num_grow_ch) by (nonlinear_arith)
            requires
                0 <= k < 5,
                0 <= g.num_grow_ch,
        ;
    }
}

/// What a step leaves to be written out: one plane under the step's name, the plane that
/// the step computed. Entering leaves one only for the x2 model; a block leaves none,
/// and past the last block the body's result.
pub proof fn dumps_of_a_step<T: Copy + Send + Sync, A: Arith<T>>(
    ops: &A,
    model: &Model<T>,
    was: Pass<T>,
    now: Pass<T>,
    wanted: bool,
    d: Seq<Dump<T>>,
)
    requires
        step_dumps(host_net(ops, model, was.h as int, was.w as int), was, now, wanted, d),
    ensures
        !wanted ==> d.len() == 0,
        was.phase == Phase::Done ==> d.len() == 0,
        was.phase == Phase::Enter && model.geom.scale != 2 ==> d.len() == 0,
        was.phase matches Phase::Block(b) && 0 < b < model.geom.num_block ==> d.len() == 0,
        was.phase == Phase::Block(0) && wanted && model.geom.num_block > 0 ==> d.len() == 3,
        ({
            ||| was.phase == Phase::Enter && model.geom.scale == 2
            ||| was.phase == Phase::First
            ||| was.phase matches Phase::Block(b) && b >= model.geom.num_block
            ||| was.phase == Phase::Join
            ||| was.phase == Phase::Up(0)
            ||| was.phase == Phase::Up(1)
            ||| was.phase == Phase::Hr
            ||| was.phase == Phase::Last
        }) && wanted ==> {
            &&& d.len() == 1
            &&& d[0].plane.c == now.cur.c
            &&& d[0].plane.h == now.cur.h
            &&& d[0].plane.w == now.cur.w
            &&& d[0].plane.data@ == now.cur.data@
            &&& was.phase == Phase::Enter ==> d[0].name@ == "00_unshuffle"@
            &&& was.phase == Phase::First ==> d[0].name@ == "01_conv_first"@
            &&& was.phase is Block ==> d[0].name@ == "05_after_body"@
            &&& was.phase == Phase::Join ==> d[0].name@ == "06_after_residual"@
            &&& was.phase == Phase::Up(0) ==> d[0].name@ == "07_up1"@
            &&& was.phase == Phase::Up(1) ==> d[0].name@ == "08_up2"@
            &&& was.phase == Phase::Hr ==> d[0].name@ == "09_hr"@
            &&& was.phase == Phase::Last ==> d[0].name@ == "10_out"@
        },
{
}

/// The first block leaves three planes: the first, the second and the fifth convolution
/// of its first dense block. The third and fourth, which are not written out, are
/// returned.
pub proof fn dumps_of_the_first_block<T: Copy + Send + Sync, A: Arith<T>>(
    ops: &A,
    model: &Model<T>,
    was: Pass<T>,
    now: Pass<T>,
    d: Seq<Dump<T>>,
) -> (r: (Seq<T>, Seq<T>))
    requires
        model.wf(),
        was.ready(model.geom),
        was.phase == Phase::Block(0),
        model.geom.num_block > 0,
        step_dumps(host_net(ops, model, was.h as int, was.w as int), was, now, true, d),
    ensures
        ({
            let net = host_net(ops, model, was.h as int, was.w as int);
            let (h, w) = (was.h as int, was.w as int);
            let (nf, ng) = (model.geom.num_feat as int, model.geom.num_grow_ch as int);
            let (x, x1, x2) = (was.cur.data@, d[0].plane.data@, d[1].plane.data@);
            &&& d.len() == 3
            &&& d[0].name@ == "02_b0r0_conv1"@ && d[1].name@ == "03_b0r0_conv2"@ && d[2].name@
                == "04_b0r0_conv5"@
            &&& d[0].plane.c == ng && d[1].plane.c == ng && d[2].plane.c == nf
            &&& d[0].plane.h == h && d[1].plane.h == h && d[2].plane.h == h
            &&& d[0].plane.w == w && d[1].plane.w == w && d[2].plane.w == w
            &&& (net.k.conv)(1, x, nf, h, w, true, x1)
            &&& (net.k.conv)(2, x + x1, nf + ng, h, w, true, x2)
            &&& (net.k.conv)(3, x + x1 + x2, nf + 2 * ng, h, w, true, r.0)
            &&& (net.k.conv)(4, x + x1 + x2 + r.0, nf + 3 * ng, h, w, true, r.1)
            &&& (net.k.conv)(
                5,
                x + x1 + x2 + r.0 + r.1,
                nf + 4 * ng,
                h,
                w,
                false,
                d[2].plane.data@,
            )
        }),
{
    let net = host_net(ops, model, was.h as int, was.w as int);
    let (g, h, w, x) = (model.geom, was.h as int, was.w as int, was.cur.data@);
    let ws = choose|ws: Seq<T>| #[trigger] first_dense_from(net, x, ws, d);
    let (w3, x4) = lemma_grown_tape(net, 1, x, 4, ws);
    let (w2, x3) = lemma_grown_tape(net, 1, x, 3, w3);
    let (w1, x2) = lemma_grown_tape(net, 1, x, 2, w2);
    let (w0, x1) = lemma_grown_tape(net, 1, x, 1, w1);
    assert(model.layer(1).c_out == g.layer_out(1));
    assert(model.layer(2).c_out == g.layer_out(2));
    assert(x1.len() == g.num_grow_ch * h * w);
    assert(x2.len() == g.num_grow_ch * h * w);
    assert(x.len() == g.num_feat * h * w);
    lemma_prefix(g, h, w, 0);
    lemma_prefix(g, h, w, 1);
    lemma_prefix(g, h, w, 2);
    assert(ws.subrange(prefix(g, h, w, 0), prefix(g, h, w, 1)) =~= x1);
    assert(ws.subrange(prefix(g, h, w, 1), prefix(g, h, w, 2)) =~= x2);
    (x3, x4)
}

} // verus!
