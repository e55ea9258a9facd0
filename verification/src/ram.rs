//! What a pass's kernel calls do to the memory of a device.
//!
//! A kernel is described by what it reads and writes at the addresses it is given,
//! provided that its grid covers its work. The calls of a pass, run one after the
//! other, leave the network's result at the address of the result buffer.

use vstd::prelude::*;

use crate::agree::device_net;
use crate::agree::program_is_the_network;
use crate::graph::Kernels;
use crate::launch::lowered;
use crate::launch::tabled_call;
use crate::launch::Addresses;
use crate::launch::ConvChoice;
use crate::launch::KernelCall;
use crate::layout::launch_finds_its_weights;
use crate::layout::packed;
use crate::layout::Layout;
use crate::model::Model;
use crate::plane::written;
use crate::program::added;
use crate::program::convolved;
use crate::program::steps;
use crate::program::traced;
use crate::program::Buf;
use crate::program::DeviceOp;
use crate::program::Extent;
use crate::program::Memory;
use crate::shape::lemma_ceil;
use crate::shape::tabled_chunk_fits;
use crate::shape::Arg;
use crate::shape::ConvShape;
use crate::shape::Launch;
use crate::shape::Operands;
use crate::shuffle::unshuffled;
use crate::shuffle::upsampled;

verus! {

/// A device's memory: the value that stands at an address, four bytes to a value.
pub struct Ram<T> {
    pub at: Map<int, T>,
}

impl<T> Ram<T> {
    /// The `n` values from address `p` on.
    pub open spec fn values(self, p: int, n: int) -> Seq<T> {
        Seq::new(n as nat, |i: int| self.at[p + 4 * i])
    }

    /// `next` is this memory with `v` written from address `p` on.
    pub open spec fn stored(self, p: int, v: Seq<T>, next: Ram<T>) -> bool {
        &&& forall|i: int| 0 <= i < v.len() ==> #[trigger] next.at[p + 4 * i] == v[i]
        &&& forall|q: int| q < p || p + 4 * v.len() <= q ==> #[trigger] next.at[q] == self.at[q]
    }
}

/// What a device's kernels compute.
#[verifier::reject_recursive_types(T)]
pub struct Device<T> {
    /// `conv(weights, biases, src, c_in, c_out, h, w, act, out)`.
    pub conv: spec_fn(Seq<T>, Seq<T>, Seq<T>, int, int, int, int, bool, Seq<T>) -> bool,
    /// `add(a, b, scale, out)`: `out` is `a + scale * b`, the scale by its bits.
    pub add: spec_fn(Seq<T>, Seq<T>, u32, Seq<T>) -> bool,
}

/// The grid has a thread for each of `n` values.
pub open spec fn spans(l: Launch, n: int) -> bool {
    l.block == (256u32, 1u32, 1u32) && n <= l.grid.0 * 256
}

/// The grid has a thread for each of `h` by `w` pixels.
pub open spec fn spans_plane(l: Launch, h: int, w: int) -> bool {
    l.block == (32u32, 8u32, 1u32) && w <= l.grid.0 * 32 && h <= l.grid.1 * 8 && 1 <= l.grid.2
}

impl<T> Device<T> {
    /// A convolution from `s` with parameters at `wt` and `b` was written to `d`.
    pub open spec fn convolves(
        self,
        ram: Ram<T>,
        s: u64,
        wt: u64,
        b: u64,
        d: u64,
        c_in: int,
        c_out: int,
        h: int,
        w: int,
        act: bool,
        next: Ram<T>,
    ) -> bool {
        exists|out: Seq<T>|
            {
                &&& out.len() == c_out * h * w
                &&& #[trigger] (self.conv)(
                    ram.values(wt as int, c_out * c_in * 9),
                    ram.values(b as int, c_out),
                    ram.values(s as int, c_in * h * w),
                    c_in,
                    c_out,
                    h,
                    w,
                    act,
                    out,
                )
                &&& ram.stored(d as int, out, next)
            }
    }

    /// `next` is the memory after the call of a kernel. The kernels' arguments are
    /// `lg_copy(src, dst, n)`, `lg_add_scaled(a, b, dst, n, scale)`,
    /// `lg_upsample2x_nearest(src, dst, c, h, w)` and `lg_pixel_unshuffle2(src, dst,
    /// c, h, w)`, with the size of what is read,
    /// `lg_conv3x3_res(src, weights, biases, dst, c_in, c_out, h, w, act)`, and
    /// `lg_conv3x3_winograd` with the same first eight, then the chunk, the channels
    /// per block, an activation code, and a slope. Its blocks cover 16 by 16 pixels
    /// and stage 1152 values per channel of the chunk, in at most 48 KB.
    pub open spec fn ran(self, ram: Ram<T>, call: &KernelCall, next: Ram<T>) -> bool {
        let (args, l) = (call.args@, call.launch);
        &&& call.name@ == "lg_copy"@ && args.len() == 3 ==> match (args[0], args[1], args[2]) {
            (Arg::Ptr(s), Arg::Ptr(d), Arg::I64(n)) => spans(l, n as int) ==> ram.stored(
                d as int,
                ram.values(s as int, n as int),
                next,
            ),
            _ => true,
        }
        &&& call.name@ == "lg_add_scaled"@ && args.len() == 5 ==> match (
            args[0],
            args[1],
            args[2],
            args[3],
            args[4],
        ) {
            (Arg::Ptr(a), Arg::Ptr(b), Arg::Ptr(d), Arg::I64(n), Arg::F32(k)) => spans(l, n as int)
                ==> exists|out: Seq<T>|
                {
                    &&& out.len() == n
                    &&& #[trigger] (self.add)(
                        ram.values(a as int, n as int),
                        ram.values(b as int, n as int),
                        k,
                        out,
                    )
                    &&& ram.stored(d as int, out, next)
                },
            _ => true,
        }
        &&& call.name@ == "lg_upsample2x_nearest"@ && args.len() == 5 ==> match (
            args[0],
            args[1],
            args[2],
            args[3],
            args[4],
        ) {
            (Arg::Ptr(s), Arg::Ptr(d), Arg::I32(c), Arg::I32(h), Arg::I32(w)) => spans_plane(
                l,
                h * 2,
                w * 2,
            ) ==> ram.stored(
                d as int,
                upsampled(
                    ram.values(s as int, c * h * w),
                    c as int,
                    h as int,
                    w as int,
                ),
                next,
            ),
            _ => true,
        }
        &&& call.name@ == "lg_pixel_unshuffle2"@ && args.len() == 5 ==> match (
            args[0],
            args[1],
            args[2],
            args[3],
            args[4],
        ) {
            (Arg::Ptr(s), Arg::Ptr(d), Arg::I32(c), Arg::I32(h), Arg::I32(w)) => spans_plane(
                l,
                h as int / 2,
                w as int / 2,
            ) ==> ram.stored(
                d as int,
                unshuffled(
                    ram.values(s as int, c * h * w),
                    c as int,
                    h as int,
                    w as int,
                ),
                next,
            ),
            _ => true,
        }
        &&& call.name@ == "lg_conv3x3_res"@ && args.len() == 9 ==> match (
            (args[0], args[1], args[2], args[3]),
            (args[4], args[5], args[6], args[7]),
            args[8],
        ) {
            (
                (Arg::Ptr(s), Arg::Ptr(wt), Arg::Ptr(b), Arg::Ptr(d)),
                (Arg::I32(ci), Arg::I32(co), Arg::I32(h), Arg::I32(w)),
                Arg::I32(act),
            ) => spans_plane(l, h as int, w as int) && (act == 0 || act == 1) ==> self.convolves(
                ram,
                s,
                wt,
                b,
                d,
                ci as int,
                co as int,
                h as int,
                w as int,
                act == 1,
                next,
            ),
            _ => true,
        }
        &&& call.name@ == "lg_conv3x3_winograd"@ && args.len() == 12 ==> match (
            (args[0], args[1], args[2], args[3]),
            (args[4], args[5], args[6], args[7]),
            (args[8], args[9], args[10], args[11]),
        ) {
            (
                (Arg::Ptr(s), Arg::Ptr(wt), Arg::Ptr(b), Arg::Ptr(d)),
                (Arg::I32(ci), Arg::I32(co), Arg::I32(h), Arg::I32(w)),
                (Arg::I32(chunk), Arg::I32(ocb), Arg::I32(code), Arg::F32(slope)),
            ) => ({
                &&& l.block == (256u32, 1u32, 1u32)
                &&& w <= l.grid.0 * 16
                &&& h <= l.grid.1 * 16
                &&& ocb == 16
                &&& co <= l.grid.2 * 16
                &&& 1 <= chunk
                &&& l.shared == chunk * 4608
                &&& l.shared <= 49152
                &&& code == 0 || (code == 2 && slope == 0x3E4C_CCCD)
            }) ==> self.convolves(
                ram,
                s,
                wt,
                b,
                d,
                ci as int,
                co as int,
                h as int,
                w as int,
                code == 2,
                next,
            ),
            _ => true,
        }
    }

    /// The graph's kernels, on this device with this model's parameters.
    pub open spec fn kernels(self, model: &Model<T>) -> Kernels<T> {
        Kernels {
            conv: |l: int, src: Seq<T>, c_in: int, h: int, w: int, act: bool, out: Seq<T>|
                (self.conv)(
                    model.layer(l).w@,
                    model.layer(l).bias@,
                    src,
                    c_in,
                    model.layer(l).c_out as int,
                    h,
                    w,
                    act,
                    out,
                ),
            residual: |branch: Seq<T>, base: Seq<T>, out: Seq<T>|
                (self.add)(base, branch, 0x3E4C_CCCDu32, out),
            join: |base: Seq<T>, branch: Seq<T>, out: Seq<T>|
                (self.add)(base, branch, 0x3F80_0000u32, out),
        }
    }
}

/// Two stretches of values do not overlap.
pub open spec fn apart(p: int, n: int, q: int, m: int) -> bool {
    p + 4 * n <= q || q + 4 * m <= p
}

/// A pass on a device: its sizes, its addresses, its model and its layout.
pub struct Board<'a, T> {
    pub e: Extent,
    pub a: Addresses,
    pub model: &'a Model<T>,
    pub lay: &'a Layout,
}

impl<'a, T> Board<'a, T> {
    /// The buffers are where they can be reached and do not overlap, and the sizes
    /// fit the kernels' arguments and grids: no grid is empty or past counting.
    pub open spec fn wf(self) -> bool {
        &&& self.e.wf()
        &&& self.e.g == self.model.geom
        &&& self.model.wf()
        &&& self.lay.lays(self.model)
        &&& self.a.hold(&self.e, self.lay.floats)
        &&& forall|b: Buf, d: Buf|
            b != d ==> apart(
                #[trigger] self.a.of(b) as int,
                self.e.len(b),
                #[trigger] self.a.of(d) as int,
                self.e.len(d),
            )
        &&& forall|b: Buf|
            apart(
                #[trigger] self.a.of(b) as int,
                self.e.len(b),
                self.a.weights as int,
                self.lay.floats as int,
            )
        &&& 0 < self.e.g.num_feat
        &&& 0 < self.e.g.num_grow_ch
        &&& 0 < self.e.g.out_ch
        &&& self.e.h * 4 <= 0x7fff_ffff
        &&& self.e.w * 4 <= 0x7fff_ffff
        &&& self.e.g.first_in() <= 0x7fff_ffff
        &&& self.e.g.dense() <= 0x7fff_ffff
        &&& self.e.g.out_ch <= 0x7fff_ffff
        &&& self.e.g.num_feat * self.e.h * self.e.w <= 256 * 0xffff_ffff
    }

    /// The memory holds what the buffers hold, and the packed parameters.
    pub open spec fn held(self, m: Memory<T>, ram: Ram<T>) -> bool {
        &&& m.sized(self.e)
        &&& forall|b: Buf, i: int|
            0 <= i < self.e.len(b) ==> #[trigger] ram.at[self.a.of(b) + 4 * i] == m.at[b][i]
        &&& forall|i: int|
            0 <= i < self.lay.floats ==> #[trigger] ram.at[self.a.weights + 4 * i] == packed(
                self.model,
                15 * self.model.blocks@.len() + 6,
            )[i]
    }

    /// Writing into one buffer.
    proof fn lemma_stored(
        self,
        m: Memory<T>,
        ram: Ram<T>,
        d: Buf,
        pos: int,
        v: Seq<T>,
        next: Ram<T>,
    ) -> (m2: Memory<T>)
        requires
            self.wf(),
            self.held(m, ram),
            0 <= pos,
            pos + v.len() <= self.e.len(d),
            ram.stored(self.a.of(d) + 4 * pos, v, next),
        ensures
            m.stored(d, pos, v, m2),
            self.held(m2, next),
    {
        let m2 = Memory { at: m.at.insert(d, written(m.at[d], pos, v)) };
        let (a, e) = (self.a, self.e);
        let p = a.of(d) + 4 * pos;
        assert(m.at[d].len() == e.len(d));
        assert forall|b: Buf, i: int|
            0 <= i < e.len(b) implies #[trigger] next.at[a.of(b) + 4 * i] == m2.at[b][i] by {
            let q = a.of(b) + 4 * i;
            assert(ram.at[a.of(b) + 4 * i] == m.at[b][i]);
            if b == d {
                if pos <= i < pos + v.len() {
                    assert(next.at[p + 4 * (i - pos)] == v[i - pos]);
                } else {
                    assert(next.at[q] == ram.at[q]);
                }
            } else {
                assert(apart(a.of(b) as int, e.len(b), a.of(d) as int, e.len(d)));
                assert(next.at[q] == ram.at[q]);
            }
        }
        assert forall|i: int| 0 <= i < self.lay.floats implies #[trigger] next.at[a.weights + 4 * i]
            == packed(self.model, 15 * self.model.blocks@.len() + 6)[i] by {
            let q = a.weights + 4 * i;
            assert(apart(a.of(d) as int, e.len(d), a.weights as int, self.lay.floats as int));
            assert(ram.at[a.weights + 4 * i] == packed(
                self.model,
                15 * self.model.blocks@.len() + 6,
            )[i]);
            assert(next.at[q] == ram.at[q]);
        }
        assert forall|b: Buf| #[trigger] m2.at[b].len() == e.len(b) && m2.at.dom().contains(b) by {
            assert(m.at[b].len() == e.len(b));
        }
        m2
    }

    /// Reading from one buffer.
    proof fn lemma_read(self, m: Memory<T>, ram: Ram<T>, b: Buf, n: int)
        requires
            self.held(m, ram),
            0 <= n <= self.e.len(b),
        ensures
            ram.values(self.a.of(b) as int, n) == m.at[b].take(n),
    {
        assert(m.at[b].len() == self.e.len(b));
        assert(ram.values(self.a.of(b) as int, n) =~= m.at[b].take(n));
    }

    /// Reading the parameters of convolution `l`.
    proof fn lemma_parameters(self, m: Memory<T>, ram: Ram<T>, l: int)
        requires
            self.wf(),
            self.held(m, ram),
            0 <= l < self.e.g.layers(),
        ensures
            ({
                let (at, c) = (self.lay.loc(l), self.model.layer(l));
                &&& self.a.weights + 4 * at.w <= u64::MAX
                &&& self.a.weights + 4 * at.b <= u64::MAX
                &&& ram.values(self.a.weights + 4 * at.w, c.w@.len() as int) == c.w@
                &&& ram.values(self.a.weights + 4 * at.b, c.bias@.len() as int) == c.bias@
            }),
    {
        launch_finds_its_weights(self.model, self.lay, l);
        let all = packed(self.model, 15 * self.model.blocks@.len() + 6);
        let (at, c) = (self.lay.loc(l), self.model.layer(l));
        assert(crate::layout::located(self.model, l, at));
        let (p, q) = (self.a.weights + 4 * at.w, self.a.weights + 4 * at.b);
        assert forall|i: int| 0 <= i < c.w@.len() implies #[trigger] ram.at[p + 4 * i] == c.w@[i] by {
            assert(ram.at[self.a.weights + 4 * (at.w + i)] == all[at.w + i]);
            assert(all.subrange(at.w as int, at.w + c.w@.len())[i] == all[at.w + i]);
        }
        assert forall|i: int| 0 <= i < c.bias@.len() implies #[trigger] ram.at[q + 4 * i]
            == c.bias@[i] by {
            assert(ram.at[self.a.weights + 4 * (at.b + i)] == all[at.b + i]);
            assert(all.subrange(at.b as int, at.b + c.bias@.len())[i] == all[at.b + i]);
        }
        assert(ram.values(p, c.w@.len() as int) =~= c.w@);
        assert(ram.values(q, c.bias@.len() as int) =~= c.bias@);
    }

    /// The call of a convolution does the operation.
    proof fn lemma_conv(
        self,
        dev: Device<T>,
        choice: &ConvChoice,
        layer: usize,
        src: Buf,
        dst: Buf,
        dst_ch: usize,
        c_in: usize,
        c_out: usize,
        h: usize,
        w: usize,
        act: bool,
        call: &KernelCall,
        m: Memory<T>,
        ram: Ram<T>,
        next: Ram<T>,
    ) -> (m2: Memory<T>)
        requires
            self.wf(),
            self.held(m, ram),
            self.e.ok(DeviceOp::Conv { layer, src, dst, dst_ch, c_in, c_out, h, w, act }),
            lowered(
                &self.e,
                &self.a,
                self.lay,
                choice,
                DeviceOp::Conv { layer, src, dst, dst_ch, c_in, c_out, h, w, act },
                call,
            ),
            choice.known(),
            dev.ran(ram, call, next),
        ensures
            m.after(
                dev.kernels(self.model),
                DeviceOp::Conv { layer, src, dst, dst_ch, c_in, c_out, h, w, act },
                m2,
            ),
            self.held(m2, next),
    {
        let op = DeviceOp::Conv { layer, src, dst, dst_ch, c_in, c_out, h, w, act };
        let (a, loc, conv) = (self.a, self.lay.loc(layer as int), self.model.layer(layer as int));
        let o = crate::launch::operands(&a, loc, op);
        self.lemma_parameters(m, ram, layer as int);
        let (ci, co, hh, ww, dc) = (c_in as int, c_out as int, h as int, w as int, dst_ch as int);
        assert(self.model.layer(layer as int).shaped(self.e.g.layer_in(layer as int)));
        let k = (layer - 1) % 5;
        assert(0 <= k < 5 ==> 0 <= k * self.e.g.num_grow_ch <= 4 * self.e.g.num_grow_ch)
            by (nonlinear_arith)
            requires
                0 <= self.e.g.num_grow_ch,
        ;
        assert(ci <= 0x7fff_ffff && co <= 0x7fff_ffff);
        assert(0 <= ci * hh * ww && 0 <= dc * hh * ww && dc * (ww * hh) == dc * hh * ww && (dc + co)
            * hh * ww == dc * hh * ww + co * hh * ww && 0 <= co * hh * ww) by (nonlinear_arith)
            requires
                0 <= ci,
                0 <= co,
                0 <= dc,
                0 < hh,
                0 < ww,
        ;
        self.lemma_read(m, ram, src, ci * hh * ww);
        assert(a.lies(&self.e, dst));
        assert(o.dst == a.of(dst) + 4 * (dc * hh * ww));
        assert(o.weights == a.weights + 4 * loc.w && o.bias == a.weights + 4 * loc.b);
        assert(dev.convolves(ram, o.src, o.weights, o.bias, o.dst, ci, co, hh, ww, act, next)) by {
            if w >= 16 && h >= 8 {
                let s = choose|s: ConvShape|
                    {
                        &&& if choice.row_name() == "wg"@ {
                            s.winograd_row()
                        } else {
                            s.direct_row()
                        }
                        &&& #[trigger] tabled_call(&s, o, choice.chunk(), call)
                    };
                lemma_tabled(&s, o, choice.chunk(), call);
            } else {
                lemma_ceil(ww, 32);
                lemma_ceil(hh, 8);
                assert(call.args@.len() == 9);
            }
        }
        let out = choose|out: Seq<T>|
            {
                &&& out.len() == co * hh * ww
                &&& #[trigger] (dev.conv)(
                    ram.values(o.weights as int, co * ci * 9),
                    ram.values(o.bias as int, co),
                    ram.values(o.src as int, ci * hh * ww),
                    ci,
                    co,
                    hh,
                    ww,
                    act,
                    out,
                )
                &&& ram.stored(o.dst as int, out, next)
            };
        let m2 = self.lemma_stored(m, ram, dst, dc * hh * ww, out, next);
        assert(convolved(dev.kernels(self.model), m, layer, src, c_in, h, w, act, out));
        m2
    }

    /// The call made for an operation does, on the device, what the operation does
    /// to the buffers.
    pub proof fn call_does_the_operation(
        self,
        dev: Device<T>,
        choice: &ConvChoice,
        op: DeviceOp,
        call: &KernelCall,
        m: Memory<T>,
        ram: Ram<T>,
        next: Ram<T>,
    ) -> (m2: Memory<T>)
        requires
            self.wf(),
            self.held(m, ram),
            self.e.ok(op),
            self.e.program().contains(op),
            lowered(&self.e, &self.a, self.lay, choice, op, call),
            choice.known(),
            dev.ran(ram, call, next),
        ensures
            m.after(dev.kernels(self.model), op, m2),
            self.held(m2, next),
    {
        let (a, e, g) = (self.a, self.e, self.e.g);
        match op {
            DeviceOp::Conv { layer, src, dst, dst_ch, c_in, c_out, h, w, act } => self.lemma_conv(
                dev,
                choice,
                layer,
                src,
                dst,
                dst_ch,
                c_in,
                c_out,
                h,
                w,
                act,
                call,
                m,
                ram,
                next,
            ),
            DeviceOp::Copy { src, dst, n } => {
                self.lemma_bounds(op);
                lemma_ceil(n as int, 256);
                self.lemma_read(m, ram, src, n as int);
                assert(call.args@.len() == 3);
                assert(m.at[src].len() == e.len(src));
                self.lemma_stored(m, ram, dst, 0, m.at[src].take(n as int), next)
            },
            DeviceOp::AddScaled { a: x, b: y, dst, n, fifth } => {
                self.lemma_bounds(op);
                lemma_ceil(n as int, 256);
                self.lemma_read(m, ram, x, n as int);
                self.lemma_read(m, ram, y, n as int);
                let bits = if fifth {
                    0x3E4C_CCCDu32
                } else {
                    0x3F80_0000u32
                };
                assert(call.args@.len() == 5);
                let out = choose|out: Seq<T>|
                    {
                        &&& out.len() == n
                        &&& #[trigger] (dev.add)(
                            ram.values(a.of(x) as int, n as int),
                            ram.values(a.of(y) as int, n as int),
                            bits,
                            out,
                        )
                        &&& ram.stored(a.of(dst) as int, out, next)
                    };
                assert(added(dev.kernels(self.model), m, x, y, n, fifth, out));
                self.lemma_stored(m, ram, dst, 0, out, next)
            },
            DeviceOp::Upsample { src, dst, c, h, w } => {
                self.lemma_bounds(op);
                lemma_ceil(w * 2, 32);
                lemma_ceil(h * 2, 8);
                let (cc, hh, ww) = (c as int, h as int, w as int);
                assert(0 <= cc * hh * ww && 0 <= cc * (hh * 2) * (ww * 2)) by (nonlinear_arith)
                    requires
                        0 <= cc,
                        0 <= hh,
                        0 <= ww,
                ;
                self.lemma_read(m, ram, src, cc * hh * ww);
                assert(call.args@.len() == 5);
                self.lemma_stored(
                    m,
                    ram,
                    dst,
                    0,
                    upsampled(m.at[src].take(cc * hh * ww), cc, hh, ww),
                    next,
                )
            },
            DeviceOp::Unshuffle { c, h, w } => {
                self.lemma_bounds(op);
                lemma_ceil(e.w as int, 32);
                lemma_ceil(e.h as int, 8);
                let (cc, hh, ww) = (c as int, h as int, w as int);
                assert(0 <= cc * hh * ww && 0 <= cc * 4 * (hh / 2) * (ww / 2)) by (nonlinear_arith)
                    requires
                        0 <= cc,
                        0 <= hh,
                        0 <= ww,
                ;
                self.lemma_read(m, ram, Buf::Stage, cc * hh * ww);
                assert(m.at[Buf::Stage].len() == e.len(Buf::Stage));
                assert(m.at[Buf::Stage].take(cc * hh * ww) =~= m.at[Buf::Stage]);
                assert(call.args@.len() == 5);
                assert(a.stage == a.of(Buf::Stage) && a.feat == a.of(Buf::Feat));
                self.lemma_stored(
                    m,
                    ram,
                    Buf::Feat,
                    0,
                    unshuffled(m.at[Buf::Stage], cc, hh, ww),
                    next,
                )
            },
        }
    }

    /// The sizes of an operation of the program fit the arguments.
    proof fn lemma_bounds(self, op: DeviceOp)
        requires
            self.wf(),
            self.e.program().contains(op),
        ensures
            op matches DeviceOp::Copy { src, dst, n } ==> n == self.e.g.num_feat * self.e.h
                * self.e.w,
            op matches DeviceOp::AddScaled { a, b, dst, n, fifth } ==> n == self.e.g.num_feat
                * self.e.h * self.e.w,
            op matches DeviceOp::Upsample { src, dst, c, h, w } ==> c == self.e.g.num_feat && h * 2
                <= self.e.h * 4 && w * 2 <= self.e.w * 4,
            op matches DeviceOp::Unshuffle { c, h, w } ==> self.e.g.scale == 2 && c
                == self.e.g.in_ch && h == self.e.ih && w == self.e.iw,
    {
        let e = self.e;
        e.lemma_sizes();
        let ops = e.program();
        let (head, body, tail) = (e.head_ops(), e.body_ops(e.g.num_block as nat), e.tail_ops());
        let i = choose|i: int| 0 <= i < ops.len() && ops[i] == op;
        if i < head.len() {
            assert(ops[i] == head[i]);
        } else if i < head.len() + body.len() {
            assert(ops[i] == body[i - head.len()]);
            self.lemma_body_bounds(e.g.num_block as nat, i - head.len());
        } else {
            assert(ops[i] == tail[i - head.len() - body.len()]);
        }
    }

    /// The body copies and adds whole features, and does nothing else but convolve.
    proof fn lemma_body_bounds(self, n: nat, i: int)
        requires
            self.wf(),
            0 <= i < self.e.body_ops(n).len(),
        ensures
            match self.e.body_ops(n)[i] {
                DeviceOp::Copy { src, dst, n } => n == self.e.g.num_feat * self.e.h * self.e.w,
                DeviceOp::AddScaled { a, b, dst, n, fifth } => n == self.e.g.num_feat * self.e.h
                    * self.e.w,
                DeviceOp::Conv { layer, src, dst, dst_ch, c_in, c_out, h, w, act } => true,
                _ => false,
            },
        decreases n,
    {
        let e = self.e;
        e.lemma_sizes();
        if n > 0 {
            let (a, b) = (e.body_ops((n - 1) as nat), e.block_ops(n - 1));
            if i < a.len() {
                assert(e.body_ops(n)[i] == a[i]);
                self.lemma_body_bounds((n - 1) as nat, i);
            } else {
                let j = i - a.len();
                assert(e.body_ops(n)[i] == b[j]);
                let (d0, d1, d2) = (
                    e.dense_ops(n - 1, 0),
                    e.dense_ops(n - 1, 1),
                    e.dense_ops(n - 1, 2),
                );
                if 1 <= j < 9 {
                    assert(b[j] == d0[j - 1]);
                } else if 9 <= j < 17 {
                    assert(b[j] == d1[j - 9]);
                } else if 17 <= j < 25 {
                    assert(b[j] == d2[j - 17]);
                }
            }
        }
    }

    /// Running the kernel calls of a pass leaves the network's result at the address
    /// of the result buffer: `rams` is the device's memory before each call and after
    /// the last, and the image stands at the address of its buffer at first.
    pub proof fn calls_compute_the_network(
        self,
        dev: Device<T>,
        choice: &ConvChoice,
        calls: Seq<KernelCall>,
        rams: Seq<Ram<T>>,
    )
        requires
            self.wf(),
            choice.known(),
            calls.len() == self.e.program().len(),
            forall|i: int|
                0 <= i < calls.len() ==> lowered(
                    &self.e,
                    &self.a,
                    self.lay,
                    choice,
                    self.e.program()[i],
                    &#[trigger] calls[i],
                ),
            rams.len() == calls.len() + 1,
            forall|i: int|
                0 <= i < calls.len() ==> dev.ran(rams[i], &#[trigger] calls[i], rams[i + 1]),
            rams[0].values(self.a.weights as int, self.lay.floats as int) == packed(
                self.model,
                15 * self.model.blocks@.len() + 6,
            ),
        ensures
            device_net(self.e, dev.kernels(self.model)).network(
                rams[0].values(
                    (if self.e.g.scale == 2 {
                        self.a.stage
                    } else {
                        self.a.feat
                    }) as int,
                    self.e.g.in_ch * self.e.ih * self.e.iw,
                ),
                self.e.ih as int,
                self.e.iw as int,
                rams.last().values(
                    self.a.out as int,
                    self.e.g.out_ch * (self.e.h * 4) * (self.e.w * 4),
                ),
            ),
    {
        let (e, a) = (self.e, self.a);
        let start = Memory {
            at: Map::new(|b: Buf| true, |b: Buf| rams[0].values(a.of(b) as int, e.len(b))),
        };
        self.lemma_lengths();
        assert(self.held(start, rams[0])) by {
            let all = packed(self.model, 15 * self.model.blocks@.len() + 6);
            assert forall|i: int| 0 <= i < self.lay.floats implies #[trigger] rams[0].at[a.weights
                + 4 * i] == all[i] by {
                assert(rams[0].values(a.weights as int, self.lay.floats as int)[i] == all[i]);
            }
        }
        e.program_stays_in_bounds();
        let trace = self.lemma_traced(dev, choice, calls, rams, start, calls.len());
        assert(traced(dev.kernels(self.model), e.program(), trace));
        let first = if e.g.scale == 2 {
            Buf::Stage
        } else {
            Buf::Feat
        };
        program_is_the_network(e, dev.kernels(self.model), start.at[first], trace);
        self.lemma_read(trace.last(), rams.last(), Buf::Out, e.len(Buf::Out));
        assert(trace.last().at[Buf::Out].take(e.len(Buf::Out)) =~= trace.last().at[Buf::Out]);
    }

    /// The buffers' lengths are not negative.
    proof fn lemma_lengths(self)
        requires
            self.wf(),
        ensures
            forall|b: Buf| 0 <= #[trigger] self.e.len(b),
    {
        let e = self.e;
        let (h, w, nf, d) = (e.h as int, e.w as int, e.g.num_feat as int, e.g.dense());
        assert(0 <= nf * h * w && 0 <= nf * (h * 2) * (w * 2) && 0 <= nf * (h * 4) * (w * 4) && 0 <= d
            * h * w) by (nonlinear_arith)
            requires
                0 <= nf,
                0 <= d,
                0 < h,
                0 < w,
        ;
        let (oc, ic, f) = (e.g.out_ch as int, e.g.in_ch as int, e.g.first_in());
        assert(0 <= oc * (h * 4) * (w * 4) && 0 <= f * h * w) by (nonlinear_arith)
            requires
                0 <= oc,
                0 <= f,
                0 < h,
                0 < w,
        ;
        let (ih, iw) = (e.ih as int, e.iw as int);
        assert(0 <= ic * ih * iw) by (nonlinear_arith)
            requires
                0 <= ic,
                0 <= ih,
                0 <= iw,
        ;
    }

    /// The buffers' contents before each of the first `n` calls, and after them.
    proof fn lemma_traced(
        self,
        dev: Device<T>,
        choice: &ConvChoice,
        calls: Seq<KernelCall>,
        rams: Seq<Ram<T>>,
        start: Memory<T>,
        n: nat,
    ) -> (trace: Seq<Memory<T>>)
        requires
            self.wf(),
            choice.known(),
            n <= calls.len(),
            calls.len() == self.e.program().len(),
            forall|i: int|
                0 <= i < calls.len() ==> lowered(
                    &self.e,
                    &self.a,
                    self.lay,
                    choice,
                    self.e.program()[i],
                    &#[trigger] calls[i],
                ),
            rams.len() == calls.len() + 1,
            forall|i: int|
                0 <= i < calls.len() ==> dev.ran(rams[i], &#[trigger] calls[i], rams[i + 1]),
            self.e.all_ok(self.e.program()),
            self.held(start, rams[0]),
        ensures
            trace.len() == n + 1,
            trace[0] == start,
            self.held(trace.last(), rams[n as int]),
            forall|i: int|
                0 <= i < n ==> #[trigger] steps(
                    dev.kernels(self.model),
                    self.e.program(),
                    trace,
                    i,
                ),
        decreases n,
    {
        if n == 0 {
            seq![start]
        } else {
            let j = n - 1;
            let t = self.lemma_traced(dev, choice, calls, rams, start, j as nat);
            let ops = self.e.program();
            assert(dev.ran(rams[j], &calls[j], rams[j + 1]));
            assert(self.e.ok(ops[j]));
            assert(ops.contains(ops[j]));
            let m2 = self.call_does_the_operation(
                dev,
                choice,
                ops[j],
                &calls[j],
                t.last(),
                rams[j],
                rams[j + 1],
            );
            let trace = t.push(m2);
            assert forall|i: int| 0 <= i < n implies #[trigger] steps(
                dev.kernels(self.model),
                ops,
                trace,
                i,
            ) by {
                if i < j {
                    assert(steps(dev.kernels(self.model), ops, t, i));
                }
            }
            trace
        }
    }
}

/// A launch from the table covers its image, has the memory for its chunk, and has
/// the arguments of its kernel.
proof fn lemma_tabled(s: &ConvShape, o: Operands, asked: i32, call: &KernelCall)
    requires
        s.tabled(),
        tabled_call(s, o, asked, call),
        0 < o.w <= 0x7fff_ffff,
        0 < o.h <= 0x7fff_ffff,
        0 < o.c_out <= 0x7fff_ffff,
    ensures
        s.winograd_row() ==> {
            let l = call.launch;
            &&& call.name@ == "lg_conv3x3_winograd"@
            &&& call.args@.len() == 12
            &&& l.block == (256u32, 1u32, 1u32)
            &&& o.w <= l.grid.0 * 16
            &&& o.h <= l.grid.1 * 16
            &&& o.c_out <= l.grid.2 * 16
            &&& call.args@[8] matches Arg::I32(chunk) && 1 <= chunk && l.shared == chunk * 4608
            &&& call.args@[9] == Arg::I32(16)
            &&& l.shared <= 49152
        },
        s.direct_row() ==> {
            &&& call.name@ == "lg_conv3x3_res"@
            &&& call.args@.len() == 9
            &&& spans_plane(call.launch, o.h as int, o.w as int)
        },
{
    tabled_chunk_fits(s);
    crate::shape::lemma_names_differ();
    lemma_ceil(o.w as int, s.covers().0);
    lemma_ceil(o.h as int, s.covers().1);
    lemma_ceil(o.c_out as int, s.oc_per_cta as int);
    if s.winograd_row() {
        let n = s.chunk_bytes();
        assert(n == 4608) by (nonlinear_arith)
            requires
                n == s.smem_per_chunk * 4 * s.buffers,
                s.smem_per_chunk == 1152,
                s.buffers == 1,
        ;
        assert(49152int / n == 10) by (nonlinear_arith)
            requires
                n == 4608,
        ;
        let c = s.chunk(asked as int);
        assert(c * n == c * 4608) by (nonlinear_arith)
            requires
                n == 4608,
        ;
    } else {
        assert(s.covers().0 == 32) by (nonlinear_arith)
            requires
                s.covers().0 == s.tx * s.cx,
                s.tx == 32,
                s.cx == 1,
        ;
    }
}

} // verus!
