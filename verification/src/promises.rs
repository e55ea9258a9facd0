//! What calls give: the laws of the convolution, the resampling, the pass on the host and
//! the pass on a device, of whatever the functions return.

use vstd::prelude::*;

use crate::agree::device_net;
use crate::arith::Arith;
use crate::conv::Conv;
use crate::conv3x3::conv3x3_prefix;
use crate::conv3x3::conv3x3_prefix_pub;
use crate::conv3x3::ConvCall;
use crate::course::stages_of_a_pass;
use crate::course::timings_are_appended;
use crate::dispatch::covers_elements;
use crate::dispatch::covers_plane;
use crate::forward::conv_is;
use crate::forward::conv_to;
use crate::forward::fits;
use crate::forward::forward_cpu;
use crate::forward::host_kernels;
use crate::forward::host_net;
use crate::forward::keys_from;
use crate::forward::product;
use crate::forward::step_dumps;
use crate::forward::step_keys;
use crate::forward::Dump;
use crate::forward::Pass;
use crate::forward::Phase;
use crate::forward::Stage;
use crate::graph::Net;
use crate::image::Image;
use crate::launch::forward_calls;
use crate::launch::lower;
use crate::launch::Addresses;
use crate::launch::ConvChoice;
use crate::launch::KernelCall;
use crate::layout::ConvLoc;
use crate::layout::Layout;
use crate::model::lemma_dense_number;
use crate::model::Geometry;
use crate::model::Model;
use crate::pictures::pasting_writes_the_owned_pixels;
use crate::plane::append_range;
use crate::plane::write_at;
use crate::plane::Plane;
use crate::profile::ConvKey;
use crate::profile::HostRun;
use crate::program::Buf;
use crate::program::DeviceOp;
use crate::program::Extent;
use crate::ram::Board;
use crate::ram::Device;
use crate::ram::Ram;
use crate::resize::columns_resampled;
use crate::resize::resize_lanczos;
use crate::resize::rows_resampled;
use crate::resize::Filter;
use crate::shape::ceil_div;
use crate::shape::lemma_ceil;
use crate::shape::Arg;
use crate::shape::ConvShape;
use crate::shape::Launch;
use crate::shuffle::unshuffled;
use crate::shuffle::upsampled;
use crate::text::bracketed;
use crate::text::decimal;
use crate::text::push_decimal;
use crate::text::push_list;
use crate::text::same_text;
use crate::tile::paste;
use crate::tile::Tile;
use crate::trace::element_is_its_products;
use crate::unrolled::block_ran;
use crate::unrolled::lemma_block_tape;
use crate::unrolled::network_is_these_convolutions;
use crate::unrolled::pass_ran;
use crate::unrolled::BlockTape;
use crate::unrolled::Tape;
use crate::weights::dense_text;
use crate::weights::LoadError;
use crate::weights::Weights;
use crate::windows::column_is_its_window;
use crate::windows::row_is_its_window;
use crate::windows::Steps;

verus! {

/// `e` is an element of a convolution: the bias and, tap by tap and channel by channel,
/// the products of the pixels that lie in the image, whose sums are `t`; then `v` is the
/// last of them, rectified if asked for, and `e` is `v`, joined to the scaled operand if
/// there is one.
pub open spec fn products_make<T, A: Arith<T>>(
    ops: &A,
    src: Seq<T>,
    c_in: int,
    conv: Conv<T>,
    h: int,
    w: int,
    act: bool,
    res: Option<(&[T], T)>,
    oc: int,
    y: int,
    x: int,
    t: Seq<T>,
    v: T,
    e: T,
) -> bool {
    &&& t.len() == 9 * c_in + 1
    &&& t[0] == conv.bias@[oc]
    &&& forall|ky: int, kx: int, ci: int|
        0 <= ky < 3 && 0 <= kx < 3 && 0 <= ci < c_in ==> if 0 <= y + ky - 1 < h && 0 <= x + kx - 1
            < w {
            call_ensures(
                <A as Arith<T>>::mul_acc,
                (
                    ops,
                    conv.w@[((oc * c_in + ci) * 3 + ky) * 3 + kx],
                    src[(ci * h + (y + ky - 1)) * w + (x + kx - 1)],
                    t[(ky * 3 + kx) * c_in + ci],
                ),
                #[trigger] t[(ky * 3 + kx) * c_in + ci + 1],
            )
        } else {
            t[(ky * 3 + kx) * c_in + ci + 1] == t[(ky * 3 + kx) * c_in + ci]
        }
    &&& if act {
        ||| {
            &&& call_ensures(<A as Arith<T>>::at_least_zero, (ops, t[9 * c_in]), true)
            &&& v == t[9 * c_in]
        }
        ||| {
            &&& call_ensures(<A as Arith<T>>::at_least_zero, (ops, t[9 * c_in]), false)
            &&& exists|fifth: T|
                #[trigger] call_ensures(<A as Arith<T>>::fifth, (ops,), fifth) && call_ensures(
                    <A as Arith<T>>::times,
                    (ops, fifth, t[9 * c_in]),
                    v,
                )
        }
    } else {
        v == t[9 * c_in]
    }
    &&& match res {
        None => e == v,
        Some((operand, factor)) => exists|m: T|
            #[trigger] call_ensures(
                <A as Arith<T>>::times,
                (ops, factor, operand@[(oc * h + y) * w + x]),
                m,
            ) && call_ensures(<A as Arith<T>>::plus, (ops, v, m), e),
    }
}

/// Every element that a convolution writes is made of its products; behind its channels
/// the destination stays, and the run is timed under the convolution's shape.
pub proof fn convolving_gives_the_products<T: Copy + Send + Sync, A: Arith<T> + Sync>(
    ops: &A,
    src: &[T],
    c_in: usize,
    dst: &mut [T],
    conv: &Conv<T>,
    h: usize,
    w: usize,
    act: bool,
    res: Option<(&[T], T)>,
    run: &mut HostRun,
    oc: int,
    y: int,
    x: int,
)
    requires
        (ConvCall { src, c_in, conv, h, w, act, res }).wf(),
        conv.c_out * h * w <= old(dst)@.len(),
        call_ensures(
            conv3x3_prefix::<T, A>,
            (ops, src, c_in, dst, conv, h, w, act, res, run),
            (),
        ) || call_ensures(
            conv3x3_prefix_pub::<T, A>,
            (ops, src, c_in, dst, conv, h, w, act, res, run),
            (),
        ),
        0 <= oc < conv.c_out,
        0 <= y < h,
        0 <= x < w,
    ensures
        final(dst)@.len() == old(dst)@.len(),
        forall|i: int|
            conv.c_out * h * w <= i < old(dst)@.len() ==> #[trigger] final(dst)@[i] == old(dst)@[i],
        exists|t: Seq<T>, v: T|
            #[trigger] products_make(
                ops,
                src@,
                c_in as int,
                *conv,
                h as int,
                w as int,
                act,
                res,
                oc,
                y,
                x,
                t,
                v,
                final(dst)@[(oc * h + y) * w + x],
            ),
        final(run).timings@.len() == old(run).timings@.len() + if old(run).profiling {
            1int
        } else {
            0
        },
        old(run).profiling ==> final(run).timings@[old(run).timings@.len() as int].key == (
        ConvKey { c_in, c_out: conv.c_out, h, w, act }),
{
    let out = final(dst)@.take(conv.c_out * h * w);
    crate::grid::lemma_cell(conv.c_out as int, h as int, w as int, oc, y, x);
    let ks = seq![ConvKey { c_in, c_out: conv.c_out, h, w, act }];
    timings_are_appended(*old(run), ks, *final(run));
    let e = final(dst)@[(oc * h + y) * w + x];
    assert(out[(oc * h + y) * w + x] == e);
    let (t, v) = element_is_its_products(ops, src, c_in, conv, h, w, act, res, out, oc, y, x);
    assert(products_make(
        ops,
        src@,
        c_in as int,
        *conv,
        h as int,
        w as int,
        act,
        res,
        oc,
        y,
        x,
        t,
        v,
        e,
    ));
}

/// A convolution into a plane fills it: the plane keeps its rows and columns and takes the
/// convolution's channels.
pub proof fn convolving_fills_a_plane<T: Copy + Send + Sync, A: Arith<T> + Sync>(
    ops: &A,
    src: &[T],
    c_in: usize,
    dst: &mut Plane<T>,
    conv: &Conv<T>,
    act: bool,
    run: &mut HostRun,
)
    requires
        call_ensures(conv_to::<T, A>, (ops, src, c_in, dst, conv, act, run), ()),
    ensures
        final(dst).c == conv.c_out && final(dst).h == old(dst).h && final(dst).w == old(dst).w,
        final(dst).data@.len() == conv.c_out * old(dst).h * old(dst).w,
        conv_is(
            ops,
            *conv,
            src@.take(c_in * old(dst).h * old(dst).w),
            c_in as int,
            old(dst).h as int,
            old(dst).w as int,
            act,
            final(dst).data@,
        ),
{
}

/// A pixel of a resampled image is made along its column of what the rows were resampled
/// to: those values are returned, and with them the steps of the pixel and of the value of
/// row `sy` under it.
pub proof fn resizing_resamples_rows_and_columns<T: Copy, W: Copy, F: Filter<T, W>>(
    ops: &F,
    src: &Image<T>,
    w: usize,
    h: usize,
    out: Image<T>,
    c: int,
    y: usize,
    x: usize,
    sy: int,
) -> (r: (Seq<T>, Steps<W>, Steps<W>))
    requires
        call_ensures(resize_lanczos::<T, W, F>, (ops, src, w, h), out),
        0 <= c < 3,
        y < h,
        x < w,
        0 <= sy < src.h,
    ensures
        out.w == w && out.h == h && out.data@.len() == 3 * w * h,
        ({
            let (mid, s) = (r.0, r.1);
            let n = if s.lo <= s.hi {
                s.hi - s.lo + 1
            } else {
                0
            };
            &&& call_ensures(<F as Filter<T, W>>::window, (ops, x, src.w, w), (s.lo, s.hi))
            &&& call_ensures(<F as Filter<T, W>>::nothing, (ops,), s.accs[0])
            &&& call_ensures(<F as Filter<T, W>>::nothing, (ops,), s.norms[0])
            &&& forall|j: int|
                0 <= j < n ==> {
                    let i = s.lo + j;
                    &&& call_ensures(
                        <F as Filter<T, W>>::weight,
                        (ops, x, src.w, w, i as isize),
                        #[trigger] s.weights[j],
                    )
                    &&& call_ensures(
                        <F as Filter<T, W>>::count,
                        (ops, s.norms[j], s.weights[j]),
                        s.norms[j + 1],
                    )
                    &&& call_ensures(
                        <F as Filter<T, W>>::blend,
                        (
                            ops,
                            s.accs[j],
                            s.weights[j],
                            src.data@[(c * src.h + sy) * src.w + if i < 0 {
                                0
                            } else if i >= src.w {
                                src.w - 1
                            } else {
                                i
                            }],
                        ),
                        s.accs[j + 1],
                    )
                }
            &&& call_ensures(
                <F as Filter<T, W>>::quotient,
                (ops, s.accs[n], s.norms[n]),
                mid[(c * src.h + sy) * w + x],
            )
        }),
        ({
            let (mid, s) = (r.0, r.2);
            let n = if s.lo <= s.hi {
                s.hi - s.lo + 1
            } else {
                0
            };
            &&& call_ensures(<F as Filter<T, W>>::window, (ops, y, src.h, h), (s.lo, s.hi))
            &&& call_ensures(<F as Filter<T, W>>::nothing, (ops,), s.accs[0])
            &&& call_ensures(<F as Filter<T, W>>::nothing, (ops,), s.norms[0])
            &&& forall|j: int|
                0 <= j < n ==> {
                    let i = s.lo + j;
                    &&& call_ensures(
                        <F as Filter<T, W>>::weight,
                        (ops, y, src.h, h, i as isize),
                        #[trigger] s.weights[j],
                    )
                    &&& call_ensures(
                        <F as Filter<T, W>>::count,
                        (ops, s.norms[j], s.weights[j]),
                        s.norms[j + 1],
                    )
                    &&& call_ensures(
                        <F as Filter<T, W>>::blend,
                        (
                            ops,
                            s.accs[j],
                            s.weights[j],
                            mid[(c * src.h + if i < 0 {
                                0
                            } else if i >= src.h {
                                src.h - 1
                            } else {
                                i
                            }) * w + x],
                        ),
                        s.accs[j + 1],
                    )
                }
            &&& call_ensures(
                <F as Filter<T, W>>::quotient,
                (ops, s.accs[n], s.norms[n]),
                out.data@[(c * h + y) * w + x],
            )
        }),
{
    let mid = choose|mid: Seq<T>|
        #[trigger] rows_resampled(ops, *src, w, mid) && columns_resampled(
            ops,
            mid,
            src.h as int,
            w,
            h,
            out.data@,
        );
    let a = row_is_its_window(ops, *src, w, mid, c, sy, x);
    let b = column_is_its_window(ops, mid, src.h, w, h, out.data@, c, y, x as int);
    (mid, a, b)
}

/// A pass on the host is the convolutions of the network on the image, with the host's
/// kernels; its result has four times the working rows and columns, and it announces the
/// stages and times the shapes of a pass. The values on the way are returned.
pub proof fn forward_pass_is_these_convolutions<T: Copy + Send + Sync, A: Arith<T> + Sync>(
    ops: &A,
    model: &Model<T>,
    input: &Plane<T>,
    run: &mut HostRun,
    r: (Plane<T>, Vec<Stage>),
) -> (t: Tape<T>)
    requires
        call_ensures(forward_cpu::<T, A>, (ops, model, input, run), r),
    ensures
        ({
            let g = model.geom;
            let (h, w) = if g.scale == 2 {
                (input.h as int / 2, input.w as int / 2)
            } else {
                (input.h as int, input.w as int)
            };
            let net = Net { k: host_kernels(ops, model), g, h, w };
            &&& r.0.c == g.out_ch && r.0.h == 4 * h && r.0.w == 4 * w
            &&& r.0.data@.len() == r.0.c * r.0.h * r.0.w
            &&& pass_ran(net, input.data@, input.h as int, input.w as int, t, r.0.data@)
            &&& g.scale == 2 ==> r.1@ == seq![
                Stage::PixelUnshuffle,
                Stage::ConvFirst,
                Stage::Body,
                Stage::ConvBody,
                Stage::Upsample,
                Stage::Head,
            ]
            &&& g.scale != 2 ==> r.1@ == seq![
                Stage::ConvFirst,
                Stage::Body,
                Stage::ConvBody,
                Stage::Upsample,
                Stage::Head,
            ]
            &&& final(run).timings@.len() == old(run).timings@.len() + if old(run).profiling {
                15 * g.num_block + 6
            } else {
                0
            }
            &&& final(run).oc == old(run).oc && final(run).profiling == old(run).profiling
            &&& forall|i: int|
                old(run).timings@.len() <= i < final(run).timings@.len() ==> (
                #[trigger] final(run).timings@[i]).key == keys_from(
                    g,
                    h,
                    w,
                    Phase::Enter,
                    (g.num_block + 8) as nat,
                )[i - old(run).timings@.len()]
        }),
{
    let g = model.geom;
    let (h, w) = (g.working(input.h as int), g.working(input.w as int));
    let net = host_net(ops, model, h, w);
    stages_of_a_pass(g);
    let ks = keys_from(g, h, w, Phase::Enter, (g.num_block + 8) as nat);
    crate::course::lemma_pass_keys(g, h, w);
    timings_are_appended(*old(run), ks, *final(run));
    network_is_these_convolutions(net, input.data@, input.h as int, input.w as int, r.0.data@)
}

/// A step moves a pass on, leaves what is to be written out of it, and keeps its sizes; the
/// phases follow one another.
pub proof fn a_step_moves_on<T: Copy + Send + Sync, A: Arith<T> + Sync>(
    p: &mut Pass<T>,
    ops: &A,
    model: &Model<T>,
    wanted: bool,
    run: &mut HostRun,
    d: Vec<Dump<T>>,
)
    requires
        call_ensures(Pass::<T>::step::<A>, (p, ops, model, wanted, run), d),
    ensures
        ({
            let (was, now) = (*old(p), *final(p));
            let net = Net {
                k: host_kernels(ops, model),
                g: model.geom,
                h: was.h as int,
                w: was.w as int,
            };
            let nb = model.geom.num_block;
            &&& now.h == was.h && now.w == was.w
            &&& was.moved(net, now)
            &&& step_dumps(net, was, now, wanted, d@)
            &&& old(run).ran(
                step_keys(model.geom, was.h as int, was.w as int, was.phase),
                *final(run),
            )
            &&& was.phase == Phase::Enter ==> now.phase == Phase::First
            &&& was.phase == Phase::First ==> now.phase == Phase::Block(0) && now.skip.data@
                == now.cur.data@
            &&& was.phase matches Phase::Block(b) ==> {
                &&& b < nb ==> now.phase == Phase::Block((b + 1) as usize)
                &&& b >= nb ==> now.phase == Phase::Join && now.cur.data@ == was.cur.data@
                &&& now.skip.data@ == was.skip.data@
            }
            &&& was.phase == Phase::Join ==> now.phase == Phase::Up(0)
            &&& was.phase == Phase::Up(0) ==> now.phase == Phase::Up(1)
            &&& was.phase == Phase::Up(1) ==> now.phase == Phase::Hr
            &&& was.phase == Phase::Hr ==> now.phase == Phase::Last
            &&& was.phase == Phase::Last ==> now.phase == Phase::Done
            &&& was.phase == Phase::Done ==> now.phase == Phase::Done && now.cur.data@
                == was.cur.data@
        }),
{
}

/// What a step computes: the unshuffled image for the x2 model, the first convolution, a
/// block, the body's convolution added to the first, an upsampled stage, or a convolution
/// of the head. A block's values are returned, and the body's convolution.
pub proof fn a_step_computes<T>(net: Net<T>, was: Pass<T>, now: Pass<T>) -> (r: (
    BlockTape<T>,
    Seq<T>,
))
    requires
        was.moved(net, now),
    ensures
        ({
            let (g, h, w, n) = (net.g, net.h, net.w, 15 * net.g.num_block);
            let (nf, x, y) = (g.num_feat as int, was.cur.data@, now.cur.data@);
            match was.phase {
                Phase::Enter => y == if g.scale == 2 {
                    unshuffled(x, g.in_ch as int, was.cur.h as int, was.cur.w as int)
                } else {
                    x
                },
                Phase::First => (net.k.conv)(
                    0,
                    x,
                    if g.scale == 2 {
                        4 * g.in_ch
                    } else {
                        g.in_ch as int
                    },
                    h,
                    w,
                    false,
                    y,
                ),
                Phase::Block(b) => b < g.num_block ==> block_ran(net, b as int, x, r.0) && y
                    == r.0.out,
                Phase::Join => {
                    &&& (net.k.conv)(n + 1, x, nf, h, w, false, r.1)
                    &&& (net.k.join)(was.skip.data@, r.1, y)
                },
                Phase::Up(i) => {
                    &&& i == 0 ==> (net.k.conv)(
                        n + 2,
                        upsampled(x, nf, h, w),
                        nf,
                        2 * h,
                        2 * w,
                        true,
                        y,
                    )
                    &&& i == 1 ==> (net.k.conv)(
                        n + 3,
                        upsampled(x, nf, 2 * h, 2 * w),
                        nf,
                        4 * h,
                        4 * w,
                        true,
                        y,
                    )
                },
                Phase::Hr => (net.k.conv)(n + 4, x, nf, 4 * h, 4 * w, true, y),
                Phase::Last => (net.k.conv)(n + 5, x, nf, 4 * h, 4 * w, false, y),
                Phase::Done => y == x,
            }
        }),
{
    let l = 15 * net.g.num_block + 1;
    let (x, y) = (was.cur.data@, now.cur.data@);
    match was.phase {
        Phase::Block(b) => if b < net.g.num_block {
            let t = lemma_block_tape(net, b as int, x, y);
            (t, y)
        } else {
            (arbitrary(), y)
        },
        Phase::Join => {
            let f = choose|f: Seq<T>|
                #[trigger] net.feature(l, 1, x, false, f) && (net.k.join)(was.skip.data@, f, y);
            (arbitrary(), f)
        },
        _ => (arbitrary(), y),
    }
}

/// A new pass stands before its image.
pub proof fn a_pass_begins_with_the_image<T: Copy + Send + Sync>(
    g: &Geometry,
    input: &Plane<T>,
    r: Pass<T>,
)
    requires
        call_ensures(Pass::<T>::new, (g, input), r),
    ensures
        r.phase == Phase::Enter,
        g.scale == 2 ==> r.h == input.h / 2 && r.w == input.w / 2,
        g.scale != 2 ==> r.h == input.h && r.w == input.w,
        r.cur.c == input.c && r.cur.h == input.h && r.cur.w == input.w,
        r.cur.data@ == input.data@,
{
}

/// The calls of a pass, run one after another on a device, are the convolutions of the
/// network on the image, with the device's kernels: the image is read from the staging
/// buffer or, where nothing is unshuffled, from the feature buffer, and the result stands
/// in the output buffer. The values on the way are returned.
pub proof fn device_pass_is_these_convolutions<T>(
    board: Board<T>,
    dev: Device<T>,
    choice: &ConvChoice,
    calls: Vec<KernelCall>,
    rams: Seq<Ram<T>>,
) -> (t: Tape<T>)
    requires
        board.wf(),
        call_ensures(
            forward_calls::<T>,
            (&board.e, &board.a, board.model, board.lay, choice),
            Ok(calls),
        ),
        rams.len() == calls@.len() + 1,
        forall|i: int|
            0 <= i < calls@.len() ==> dev.ran(rams[i], &#[trigger] calls@[i], rams[i + 1]),
        rams[0].values(board.a.weights as int, board.lay.floats as int) == crate::layout::packed(
            board.model,
            15 * board.model.blocks@.len() + 6,
        ),
    ensures
        ({
            let (e, g) = (board.e, board.e.g);
            let (h, w) = (e.h as int, e.w as int);
            let net = Net { k: dev.kernels(board.model), g, h, w };
            pass_ran(
                net,
                rams[0].values(
                    (if g.scale == 2 {
                        board.a.stage
                    } else {
                        board.a.feat
                    }) as int,
                    g.in_ch * e.ih * e.iw,
                ),
                e.ih as int,
                e.iw as int,
                t,
                rams.last().values(board.a.out as int, g.out_ch * (h * 4) * (w * 4)),
            )
        }),
{
    let (e, g) = (board.e, board.e.g);
    board.calls_compute_the_network(dev, choice, calls@, rams);
    network_is_these_convolutions(
        device_net(e, dev.kernels(board.model)),
        rams[0].values(
            (if g.scale == 2 {
                board.a.stage
            } else {
                board.a.feat
            }) as int,
            g.in_ch * e.ih * e.iw,
        ),
        e.ih as int,
        e.iw as int,
        rams.last().values(board.a.out as int, g.out_ch * (e.h * 4) * (e.w * 4)),
    )
}

/// The calls of a pass are refused where the row that was named is not in the table, and
/// only there; so is the call of one operation, if it is a convolution.
pub proof fn unknown_rows_are_refused<T>(
    e: &Extent,
    a: &Addresses,
    model: &Model<T>,
    lay: &Layout,
    choice: &ConvChoice,
    r: Result<Vec<KernelCall>, String>,
    op: &DeviceOp,
    one: Result<KernelCall, String>,
)
    requires
        call_ensures(forward_calls::<T>, (e, a, model, lay, choice), r),
        call_ensures(lower, (e, a, lay, choice, op), one),
    ensures
        ({
            let name = match choice.variant {
                Some(v) => v@,
                None => "wg"@,
            };
            let known = name == "wg"@ || name == "direct"@;
            let text = "unknown LA_CONV `"@ + name
                + "` (see ConvShape::by_name: \"wg\" or \"direct\")"@;
            &&& r is Ok <==> known
            &&& r matches Err(t) ==> t@ == text
            &&& one is Ok <==> known || !(op is Conv)
            &&& one matches Err(t) ==> t@ == text
        }),
{
}

/// The calls of the operations that are no convolutions: each is launched over what it
/// writes, with its buffers, its sizes and, for a sum, its factor of one fifth or one.
pub proof fn operations_are_launched_so(
    e: &Extent,
    a: &Addresses,
    lay: &Layout,
    choice: &ConvChoice,
    op: &DeviceOp,
    call: KernelCall,
)
    requires
        call_ensures(lower, (e, a, lay, choice, op), Ok(call)),
        e.h * 4 <= 0x7fff_ffff,
        e.w * 4 <= 0x7fff_ffff,
    ensures
        ({
            let args = call.args@;
            match *op {
                DeviceOp::Unshuffle { c, h, w } => {
                    &&& call.name@ == "lg_pixel_unshuffle2"@
                    &&& covers_plane(call.launch, e.w as int, e.h as int)
                    &&& args.len() == 5
                    &&& args[0] == Arg::Ptr(a.stage) && args[1] == Arg::Ptr(a.feat)
                    &&& args[2] == Arg::I32(c as i32)
                    &&& args[3] == Arg::I32(h as i32) && args[4] == Arg::I32(w as i32)
                },
                DeviceOp::Copy { src, dst, n } => {
                    &&& call.name@ == "lg_copy"@
                    &&& n <= 256 * 0xffff_ffff ==> covers_elements(call.launch, n as int)
                    &&& args.len() == 3
                    &&& args[0] == Arg::Ptr(a.of(src)) && args[1] == Arg::Ptr(a.of(dst))
                    &&& args[2] == Arg::I64(n as i64)
                },
                DeviceOp::AddScaled { a: x, b: y, dst, n, fifth } => {
                    &&& call.name@ == "lg_add_scaled"@
                    &&& n <= 256 * 0xffff_ffff ==> covers_elements(call.launch, n as int)
                    &&& args.len() == 5
                    &&& args[0] == Arg::Ptr(a.of(x)) && args[1] == Arg::Ptr(a.of(y))
                    &&& args[2] == Arg::Ptr(a.of(dst))
                    &&& args[3] == Arg::I64(n as i64)
                    &&& fifth ==> args[4] == Arg::F32(0x3E4C_CCCD)
                    &&& !fifth ==> args[4] == Arg::F32(0x3F80_0000)
                },
                DeviceOp::Upsample { src, dst, c, h, w } => {
                    &&& call.name@ == "lg_upsample2x_nearest"@
                    &&& 2 * w <= 0x7fff_ffff && 2 * h <= 0x7fff_ffff ==> covers_plane(
                        call.launch,
                        2 * w,
                        2 * h,
                    )
                    &&& args.len() == 5
                    &&& args[0] == Arg::Ptr(a.of(src)) && args[1] == Arg::Ptr(a.of(dst))
                    &&& args[2] == Arg::I32(c as i32)
                    &&& args[3] == Arg::I32(h as i32) && args[4] == Arg::I32(w as i32)
                },
                _ => true,
            }
        }),
{
    lemma_ceil(e.w as int, 32);
    lemma_ceil(e.h as int, 8);
    match *op {
        DeviceOp::Copy { src, dst, n } => lemma_ceil(n as int, 256),
        DeviceOp::AddScaled { a: x, b: y, dst, n, fifth } => lemma_ceil(n as int, 256),
        DeviceOp::Upsample { src, dst, c, h, w } => {
            lemma_ceil(w * 2, 32);
            lemma_ceil(h * 2, 8);
        },
        _ => {},
    }
}

/// Pasting a tile, as a call.
pub proof fn pasting_a_tile<T: Copy>(
    out: &mut Plane<T>,
    up: &[T],
    t: &Tile,
    scale: usize,
    c: int,
    y: int,
    x: int,
)
    requires
        call_ensures(paste::<T>, (out, up, t, scale), ()),
        0 <= c < old(out).c,
        0 <= y < old(out).h,
        0 <= x < old(out).w,
    ensures
        ({
            let (was, now) = (*old(out), *final(out));
            let owned = t.y0 * scale <= y < t.y1 * scale && t.x0 * scale <= x < t.x1 * scale;
            &&& now.c == was.c && now.h == was.h && now.w == was.w
            &&& now.data@.len() == now.c * now.h * now.w
            &&& now.data@[(c * was.h + y) * was.w + x] == if owned {
                up@[(c * ((t.y1p - t.y0p) * scale) + y - t.y0p * scale) * ((t.x1p - t.x0p) * scale)
                    + x - t.x0p * scale]
            } else {
                was.data@[(c * was.h + y) * was.w + x]
            }
        }),
{
    pasting_writes_the_owned_pixels(*old(out), up@, t, scale as int, *final(out), c, y, x);
}

/// Writing into a sequence and appending to one.
pub proof fn writing_and_appending<T: Copy>(
    dst: &mut [T],
    at: usize,
    src: &[T],
    more: &mut Vec<T>,
    lo: usize,
    hi: usize,
    i: int,
)
    requires
        call_ensures(write_at::<T>, (dst, at, src), ()),
        call_ensures(append_range::<T>, (more, src, lo, hi), ()),
        at + src@.len() <= old(dst)@.len(),
        lo <= hi <= src@.len(),
    ensures
        final(dst)@.len() == old(dst)@.len(),
        0 <= i < old(dst)@.len() ==> final(dst)@[i] == if at <= i < at + src@.len() {
            src@[i - at]
        } else {
            old(dst)@[i]
        },
        final(more)@.len() == old(more)@.len() + hi - lo,
        0 <= i < old(more)@.len() ==> final(more)@[i] == old(more)@[i],
        lo <= i < hi ==> final(more)@[old(more)@.len() + i - lo] == src@[i],
{
}

/// Resizing a plane keeps what it holds, as far as there is room, and fills the rest.
pub proof fn resizing_a_plane<T: Copy>(
    p: &mut Plane<T>,
    c: usize,
    h: usize,
    w: usize,
    fill: T,
    i: int,
)
    requires
        call_ensures(Plane::<T>::set, (p, c, h, w, fill), ()),
        0 <= i < c * h * w,
    ensures
        final(p).c == c && final(p).h == h && final(p).w == w,
        final(p).data@.len() == c * h * w,
        i < old(p).data@.len() ==> final(p).data@[i] == old(p).data@[i],
        i >= old(p).data@.len() ==> final(p).data@[i] == fill,
{
}

/// Numbers are appended in decimal, lists in brackets, and texts compared by their
/// characters.
pub proof fn texts_are_appended(
    s: &mut String,
    n: u64,
    t: &mut String,
    v: &[usize],
    a: &str,
    b: &str,
    same: bool,
)
    requires
        call_ensures(push_decimal, (s, n), ()),
        call_ensures(push_list, (t, v), ()),
        call_ensures(same_text, (a, b), same),
    ensures
        final(s)@ == old(s)@ + decimal(n as nat),
        final(t)@ == old(t)@ + bracketed(v@),
        same <==> a@ == b@,
{
}

/// The name of a dense block's convolution counts the block from zero, and the dense block
/// and the convolution from one.
pub proof fn dense_names(b: usize, r: usize, k: usize, s: String)
    requires
        call_ensures(dense_text, (b, r, k), s),
    ensures
        s@ == "body."@ + decimal(b as nat) + ".rdb"@ + decimal((r + 1) as nat) + ".conv"@
            + decimal((k + 1) as nat),
{
}

/// The messages of a checkpoint's errors, as calls give them.
pub proof fn load_messages(e: &LoadError, r: String)
    requires
        call_ensures(LoadError::message, (e,), r),
    ensures
        r@ == match *e {
            LoadError::NoMetadata(k) => "checkpoint metadata is missing `"@ + k@
                + "` (not a converted Real-ESRGAN file?)"@,
            LoadError::NoTensor(n) => "no tensor "@ + n@,
            LoadError::NotF32(n) => n@ + ": not f32"@,
            LoadError::Shape(n, got, want) => n@ + ": shape "@ + bracketed(got@) + ", expected "@
                + bracketed(want@),
            LoadError::NotConv(n, got) => n@ + ": expected a [c_out, c_in, 3, 3] weight, got "@
                + bracketed(got@),
        },
{
}

/// Checking the shapes accepts a checkpoint whose shapes are sound, and else tells the
/// first tensor that fails.
pub proof fn checking_tells_the_first_failure<'a, T>(
    w: &Weights<'a, T>,
    r: Result<(), LoadError>,
    bytes: usize,
)
    requires
        call_ensures(Weights::<'a, T>::check_shapes, (w,), r),
        call_ensures(Weights::<'a, T>::total_bytes, (w,), bytes),
    ensures
        r is Ok <==> w.sound(),
        r matches Err(e) ==> w.first_fault(e@),
        bytes == w.payload_bytes,
{
}

/// What a row of the table says of its blocks: the Winograd kernel, told by its name, has
/// 256 threads to a block, which cover squares of four times its columns per thread; any
/// other has its own threads, each for its columns per thread.
pub proof fn rows_lay_out_their_blocks(
    s: &ConvShape,
    w: usize,
    h: usize,
    c_out: usize,
    shared: u32,
    winograd: bool,
    block: (u32, u32, u32),
    cta: (u32, u32),
    l: Launch,
)
    requires
        call_ensures(ConvShape::is_toolkit_winograd, (s,), winograd),
        call_ensures(ConvShape::block, (s,), block),
        call_ensures(ConvShape::cta_out, (s,), cta),
        call_ensures(ConvShape::launch, (s, w, h, c_out, shared), l),
        0 < cta.0,
        0 < cta.1,
        0 < s.oc_per_cta,
        w <= u32::MAX,
        h <= u32::MAX,
        c_out <= u32::MAX,
    ensures
        winograd <==> s.name@ == "lg_conv3x3_winograd"@,
        winograd ==> block == (256u32, 1u32, 1u32) && cta.0 == 4 * s.cx && cta.1 == 4 * s.cx,
        !winograd ==> block == (s.tx, s.ty, 1u32) && cta.0 == s.tx * s.cx && cta.1 == s.ty,
        l.block == block && l.shared == shared,
        (l.grid.0 - 1) * cta.0 < w <= l.grid.0 * cta.0,
        (l.grid.1 - 1) * cta.1 < h <= l.grid.1 * cta.1,
        (l.grid.2 - 1) * s.oc_per_cta < c_out <= l.grid.2 * s.oc_per_cta,
{
    lemma_ceil(w as int, cta.0 as int);
    lemma_ceil(h as int, cta.1 as int);
    lemma_ceil(c_out as int, s.oc_per_cta as int);
    assert((l.grid.0 - 1) * cta.0 == l.grid.0 * cta.0 - cta.0) by (nonlinear_arith);
    assert((l.grid.1 - 1) * cta.1 == l.grid.1 * cta.1 - cta.1) by (nonlinear_arith);
    assert((l.grid.2 - 1) * s.oc_per_cta == l.grid.2 * s.oc_per_cta - s.oc_per_cta)
        by (nonlinear_arith);
}

/// A row of the tiled family stages its pixels and one more on each side.
pub proof fn tiled_rows(name: &'static str, ty: u32, cx: u32, tx: u32, buffers: u32, r: ConvShape)
    requires
        call_ensures(ConvShape::tiled, (name, ty, cx, tx, buffers), r),
    ensures
        r.name@ == name@ && r.ty == ty && r.cx == cx && r.tx == tx && r.buffers == buffers,
        r.smem_per_chunk == (tx * cx + 2) * (ty + 2),
        r.ocb == ty && r.oc_per_cta == ty,
{
}

/// Division rounds up.
pub proof fn division_rounds_up(a: u32, b: u32, r: u32)
    requires
        call_ensures(ceil_div, (a, b), r),
        0 < b,
    ensures
        (r - 1) * b < a <= r * b,
{
    lemma_ceil(a as int, b as int);
    assert((r - 1) * b == r * b - b) by (nonlinear_arith);
}

/// The buffers lie in the address space where none of them, four bytes to a value, passes
/// its end.
pub proof fn buffers_lie_in_the_address_space(a: &Addresses, e: &Extent, floats: usize, r: bool)
    requires
        call_ensures(Addresses::holds, (a, e, floats), r),
    ensures
        r <==> {
            &&& a.weights + 4 * floats <= u64::MAX && 4 * floats <= usize::MAX
            &&& forall|b: Buf|
                #![trigger a.of(b)]
                a.of(b) + 4 * e.len(b) <= u64::MAX && 4 * e.len(b) <= usize::MAX
        },
{
    if r {
        assert forall|b: Buf|
            #![trigger a.of(b)]
            a.of(b) + 4 * e.len(b) <= u64::MAX && 4 * e.len(b) <= usize::MAX by {
            assert(a.lies(e, b));
        }
    } else if a.weights + 4 * floats <= u64::MAX && 4 * floats <= usize::MAX {
        let b = choose|b: Buf| !#[trigger] a.lies(e, b);
        assert(a.of(b) + 4 * e.len(b) > u64::MAX || 4 * e.len(b) > usize::MAX);
    }
}

/// A layout is asked by a convolution's number.
pub proof fn layouts_are_asked_by_number(lay: &Layout, b: usize, r: usize, k: usize, c: ConvLoc)
    requires
        call_ensures(Layout::at, (lay, (1 + 15 * b + 5 * r + k) as usize), c),
        b < lay.blocks@.len(),
        r < 3,
        k < 5,
        15 * lay.blocks@.len() + 6 <= usize::MAX,
    ensures
        c == lay.blocks@[b as int]@[r as int]@[k as int],
{
    lemma_dense_number(b as int, r as int, k as int);
}

/// A product of three is given where it can be held.
pub proof fn products_that_can_be_held(a: usize, b: usize, c: usize, r: Option<usize>)
    requires
        call_ensures(product, (a, b, c), r),
    ensures
        r is Some <==> a * b * c <= usize::MAX,
        r is Some ==> r->0 == a * b * c,
{
}

/// The sizes on a device are usable where the working size is the image's, even for the x2
/// model, and where every plane of the pass and every number of a convolution can be
/// counted.
pub proof fn usable_sizes(e: &Extent, r: bool)
    requires
        call_ensures(Extent::is_wf, (e,), r),
    ensures
        r <==> {
            let g = e.g;
            let (h, w) = (e.h as int, e.w as int);
            &&& g.scale == 2 ==> e.ih == 2 * e.h && e.iw == 2 * e.w
            &&& g.scale != 2 ==> e.ih == e.h && e.iw == e.w
            &&& fits(g, h, w)
            &&& 15 * g.num_block + 6 <= usize::MAX
            &&& (if g.scale == 2 {
                4 * g.in_ch
            } else {
                g.in_ch as int
            }) <= usize::MAX
            &&& (if g.scale == 2 {
                4 * g.in_ch
            } else {
                g.in_ch as int
            }) * h * w <= usize::MAX
            &&& g.in_ch * e.ih * e.iw <= usize::MAX
        },
{
}

} // verus!
