//! The forward pass on a device, as a list of operations on its buffers.
//!
//! The dense workspace is one buffer: every dense block writes each result into
//! its own slot of it, and the slots so far are the concatenation that the next
//! convolution reads. A convolution's read and write ranges must not overlap;
//! inside a dense block the slot that is written lies beyond the prefix that is
//! read.

use vstd::prelude::*;

use crate::forward::can_hold;
use crate::forward::fits;
use crate::forward::lemma_prefix;
use crate::forward::product;
use crate::graph::Kernels;
use crate::model::dense_layer;
use crate::model::lemma_dense_number;
use crate::model::Geometry;
use crate::plane::written;
use crate::shuffle::unshuffled;
use crate::shuffle::upsampled;

verus! {

/// The device's buffers.
#[derive(Clone, Copy, PartialEq, Eq, Structural, Debug)]
pub enum Buf {
    /// The image, where it is unshuffled on the device.
    Stage,
    /// What enters the first convolution.
    Feat,
    /// The dense workspace.
    Ws,
    /// The current features.
    Cur,
    /// The fifth convolution of a dense block.
    X5,
    /// A residual under way.
    Rdb,
    /// A block's input, kept for its residual.
    Save,
    /// The first convolution, kept for the global skip.
    Skip,
    /// The body's convolution.
    Body,
    /// The features, enlarged twice.
    Up1,
    /// The features, enlarged four times.
    Up2,
    /// The upsampling's convolutions and the head's first.
    Hr,
    /// The result.
    Out,
}

/// One operation on the device.
#[derive(Clone, Copy, PartialEq, Eq, Structural, Debug)]
pub enum DeviceOp {
    /// `Feat` becomes the unshuffled `Stage`, `c` channels of `h` by `w` values.
    Unshuffle { c: usize, h: usize, w: usize },
    /// Convolution `layer` reads the first `c_in` channels of `src` and writes the
    /// `c_out` channels of `dst` from channel `dst_ch` on.
    Conv {
        layer: usize,
        src: Buf,
        dst: Buf,
        dst_ch: usize,
        c_in: usize,
        c_out: usize,
        h: usize,
        w: usize,
        act: bool,
    },
    /// The first `n` values of `dst` become those of `src`.
    Copy { src: Buf, dst: Buf, n: usize },
    /// The first `n` values of `dst` become those of `a` and `b` added, `b` scaled
    /// by one fifth or not at all.
    AddScaled { a: Buf, b: Buf, dst: Buf, n: usize, fifth: bool },
    /// `dst` takes `c` channels of `h` by `w` values of `src`, doubled both ways.
    Upsample { src: Buf, dst: Buf, c: usize, h: usize, w: usize },
}

/// The network's sizes on a device: its geometry, the working rows and columns,
/// and the image's.
#[derive(Clone, Copy)]
pub struct Extent {
    pub g: Geometry,
    pub h: usize,
    pub w: usize,
    pub ih: usize,
    pub iw: usize,
}

impl Extent {
    /// The working size is that of the image, and every plane can be held. The x2
    /// model takes images of even sizes, so that its result has twice the size.
    pub open spec fn wf(&self) -> bool {
        &&& self.g.scale == 2 ==> self.ih % 2 == 0 && self.iw % 2 == 0
        &&& self.h == self.g.working(self.ih as int)
        &&& self.w == self.g.working(self.iw as int)
        &&& fits(self.g, self.h as int, self.w as int)
        &&& self.g.layers() <= usize::MAX
        &&& self.g.first_in() <= usize::MAX
        &&& self.g.first_in() * self.h * self.w <= usize::MAX
        &&& self.g.in_ch * self.ih * self.iw <= usize::MAX
    }

    /// Values of one channel at the working size.
    pub open spec fn base(&self) -> int {
        self.h * self.w
    }

    /// Values that a buffer holds.
    pub open spec fn len(&self, b: Buf) -> int {
        let (h, w) = (self.h as int, self.w as int);
        let nf = self.g.num_feat as int;
        match b {
            Buf::Stage => self.g.in_ch * self.ih * self.iw,
            Buf::Feat => self.g.first_in() * h * w,
            Buf::Ws => self.g.dense() * h * w,
            Buf::Up1 => nf * (h * 2) * (w * 2),
            Buf::Up2 => nf * (h * 4) * (w * 4),
            Buf::Hr => nf * (h * 4) * (w * 4),
            Buf::Out => self.g.out_ch * (h * 4) * (w * 4),
            _ => nf * h * w,
        }
    }

    /// A convolution of the feature channels, with `f` times the working rows and
    /// columns.
    pub open spec fn feature(&self, l: int, src: Buf, dst: Buf, f: int, act: bool) -> DeviceOp {
        DeviceOp::Conv {
            layer: l as usize,
            src,
            dst,
            dst_ch: 0,
            c_in: self.g.num_feat,
            c_out: self.g.layer_out(l) as usize,
            h: (self.h * f) as usize,
            w: (self.w * f) as usize,
            act,
        }
    }

    /// A copy of all working features.
    pub open spec fn copy(&self, src: Buf, dst: Buf) -> DeviceOp {
        DeviceOp::Copy { src, dst, n: (self.g.num_feat * self.h * self.w) as usize }
    }

    /// A sum of all working features.
    pub open spec fn add(&self, a: Buf, b: Buf, dst: Buf, fifth: bool) -> DeviceOp {
        DeviceOp::AddScaled {
            a,
            b,
            dst,
            n: (self.g.num_feat * self.h * self.w) as usize,
            fifth,
        }
    }

    /// Convolution `k` of a dense block: the first four grow the workspace, the
    /// fifth leaves it.
    pub open spec fn dense_conv(&self, b: int, r: int, k: int) -> DeviceOp {
        DeviceOp::Conv {
            layer: dense_layer(b, r, k) as usize,
            src: Buf::Ws,
            dst: if k < 4 {
                Buf::Ws
            } else {
                Buf::X5
            },
            dst_ch: if k < 4 {
                (self.g.num_feat + k * self.g.num_grow_ch) as usize
            } else {
                0
            },
            c_in: (self.g.num_feat + k * self.g.num_grow_ch) as usize,
            c_out: if k < 4 {
                self.g.num_grow_ch
            } else {
                self.g.num_feat
            },
            h: self.h,
            w: self.w,
            act: k < 4,
        }
    }

    /// The operations of dense block `r` of block `b`.
    pub open spec fn dense_ops(&self, b: int, r: int) -> Seq<DeviceOp> {
        seq![
            self.copy(Buf::Cur, Buf::Ws),
            self.dense_conv(b, r, 0),
            self.dense_conv(b, r, 1),
            self.dense_conv(b, r, 2),
            self.dense_conv(b, r, 3),
            self.dense_conv(b, r, 4),
            self.add(Buf::Cur, Buf::X5, Buf::Rdb, true),
            self.copy(Buf::Rdb, Buf::Cur),
        ]
    }

    /// The operations of block `b`.
    pub open spec fn block_ops(&self, b: int) -> Seq<DeviceOp> {
        seq![self.copy(Buf::Cur, Buf::Save)] + self.dense_ops(b, 0) + self.dense_ops(b, 1)
            + self.dense_ops(b, 2) + seq![
            self.add(Buf::Save, Buf::Cur, Buf::Rdb, true),
            self.copy(Buf::Rdb, Buf::Cur),
        ]
    }

    /// The operations of the first `n` blocks.
    pub open spec fn body_ops(&self, n: nat) -> Seq<DeviceOp>
        decreases n,
    {
        if n == 0 {
            Seq::empty()
        } else {
            self.body_ops((n - 1) as nat) + self.block_ops(n - 1)
        }
    }

    /// The operations before the body.
    pub open spec fn head_ops(&self) -> Seq<DeviceOp> {
        (if self.g.scale == 2 {
            seq![DeviceOp::Unshuffle { c: self.g.in_ch, h: self.ih, w: self.iw }]
        } else {
            Seq::empty()
        }) + seq![
            DeviceOp::Conv {
                layer: 0,
                src: Buf::Feat,
                dst: Buf::Cur,
                dst_ch: 0,
                c_in: self.g.first_in() as usize,
                c_out: self.g.num_feat,
                h: self.h,
                w: self.w,
                act: false,
            },
            self.copy(Buf::Cur, Buf::Skip),
        ]
    }

    /// The operations behind the body.
    pub open spec fn tail_ops(&self) -> Seq<DeviceOp> {
        let l = 15 * self.g.num_block;
        let nf = self.g.num_feat;
        seq![
            self.feature(l + 1, Buf::Cur, Buf::Body, 1, false),
            self.add(Buf::Skip, Buf::Body, Buf::Cur, false),
            DeviceOp::Upsample { src: Buf::Cur, dst: Buf::Up1, c: nf, h: self.h, w: self.w },
            self.feature(l + 2, Buf::Up1, Buf::Hr, 2, true),
            DeviceOp::Upsample {
                src: Buf::Hr,
                dst: Buf::Up2,
                c: nf,
                h: (self.h * 2) as usize,
                w: (self.w * 2) as usize,
            },
            self.feature(l + 3, Buf::Up2, Buf::Hr, 4, true),
            self.feature(l + 4, Buf::Hr, Buf::Up2, 4, true),
            self.feature(l + 5, Buf::Up2, Buf::Out, 4, false),
        ]
    }

    /// The whole pass.
    pub open spec fn program(&self) -> Seq<DeviceOp> {
        self.head_ops() + self.body_ops(self.g.num_block as nat) + self.tail_ops()
    }
}

/// What the device's buffers hold.
pub struct Memory<T> {
    pub at: Map<Buf, Seq<T>>,
}

impl<T> Memory<T> {
    /// Every buffer has its length.
    pub open spec fn sized(self, e: Extent) -> bool {
        forall|b: Buf| #[trigger] self.at[b].len() == e.len(b) && self.at.dom().contains(b)
    }

    /// `next` is this memory with `v` written into buffer `b` from position `pos`
    /// on.
    pub open spec fn stored(self, b: Buf, pos: int, v: Seq<T>, next: Memory<T>) -> bool {
        next.at == self.at.insert(b, written(self.at[b], pos, v))
    }

    /// `next` is this memory after the operation, with these kernels.
    pub open spec fn after(self, k: Kernels<T>, op: DeviceOp, next: Memory<T>) -> bool {
        match op {
            DeviceOp::Unshuffle { c, h, w } => self.stored(
                Buf::Feat,
                0,
                unshuffled(self.at[Buf::Stage], c as int, h as int, w as int),
                next,
            ),
            DeviceOp::Conv { layer, src, dst, dst_ch, c_in, c_out, h, w, act } => exists|
                out: Seq<T>,
            |
                {
                    &&& #[trigger] convolved(k, self, layer, src, c_in, h, w, act, out)
                    &&& out.len() == c_out * h * w
                    &&& self.stored(dst, dst_ch * h * w, out, next)
                },
            DeviceOp::Copy { src, dst, n } => self.stored(
                dst,
                0,
                self.at[src].take(n as int),
                next,
            ),
            DeviceOp::AddScaled { a, b, dst, n, fifth } => exists|out: Seq<T>|
                {
                    &&& #[trigger] added(k, self, a, b, n, fifth, out)
                    &&& out.len() == n
                    &&& self.stored(dst, 0, out, next)
                },
            DeviceOp::Upsample { src, dst, c, h, w } => self.stored(
                dst,
                0,
                upsampled(self.at[src].take(c * h * w), c as int, h as int, w as int),
                next,
            ),
        }
    }
}

/// `out` is convolution `layer` of what `src` holds.
pub open spec fn convolved<T>(
    k: Kernels<T>,
    m: Memory<T>,
    layer: usize,
    src: Buf,
    c_in: usize,
    h: usize,
    w: usize,
    act: bool,
    out: Seq<T>,
) -> bool {
    (k.conv)(
        layer as int,
        m.at[src].take(c_in * h * w),
        c_in as int,
        h as int,
        w as int,
        act,
        out,
    )
}

/// `out` is the sum of what `a` and `b` hold, `b` scaled or not.
pub open spec fn added<T>(
    k: Kernels<T>,
    m: Memory<T>,
    a: Buf,
    b: Buf,
    n: usize,
    fifth: bool,
    out: Seq<T>,
) -> bool {
    let (va, vb) = (m.at[a].take(n as int), m.at[b].take(n as int));
    if fifth {
        (k.residual)(vb, va, out)
    } else {
        (k.join)(va, vb, out)
    }
}

/// `trace` is what the memory holds before each operation, and after the last.
pub open spec fn traced<T>(k: Kernels<T>, ops: Seq<DeviceOp>, trace: Seq<Memory<T>>) -> bool {
    &&& trace.len() == ops.len() + 1
    &&& forall|i: int| 0 <= i < ops.len() ==> #[trigger] steps(k, ops, trace, i)
}

/// Operation `i` takes the memory from `trace[i]` to the next.
pub open spec fn steps<T>(
    k: Kernels<T>,
    ops: Seq<DeviceOp>,
    trace: Seq<Memory<T>>,
    i: int,
) -> bool {
    trace[i].after(k, ops[i], trace[i + 1])
}

/// The first product of three numbers is within the whole, if the others are not
/// zero.
proof fn lemma_first_product(a: int, b: int, c: int)
    requires
        0 <= a,
        0 < b,
        0 < c,
    ensures
        0 <= a * b <= a * b * c,
{
    assert(0 <= a * b <= a * b * c) by (nonlinear_arith)
        requires
            0 <= a,
            0 < b,
            0 < c,
    ;
}

impl Extent {
    /// The sizes for an image of `iw` by `ih` pixels.
    pub fn new(g: &Geometry, iw: usize, ih: usize) -> (r: Extent)
        ensures
            r.g == *g,
            r.ih == ih,
            r.iw == iw,
            r.h == g.working(ih as int),
            r.w == g.working(iw as int),
    {
        let (w, h) = if g.scale == 2 {
            (iw / 2, ih / 2)
        } else {
            (iw, ih)
        };
        Extent { g: *g, h, w, ih, iw }
    }

    /// Values that a buffer holds.
    pub fn buffer_len(&self, b: Buf) -> (r: usize)
        requires
            self.wf(),
        ensures
            r == self.len(b),
    {
        let (g, h, w) = (self.g, self.h, self.w);
        proof {
            self.lemma_sizes();
            let (h, w) = (h as int, w as int);
            lemma_first_product(g.in_ch as int, self.ih as int, self.iw as int);
            lemma_first_product(g.first_in(), h, w);
            lemma_first_product(g.dense(), h, w);
            lemma_first_product(g.num_feat as int, h * 2, w * 2);
            lemma_first_product(g.num_feat as int, h * 4, w * 4);
            lemma_first_product(g.out_ch as int, h * 4, w * 4);
            let nf = g.num_feat as int;
            assert(nf * (h * 2) * (w * 2) <= nf * (h * 4) * (w * 4)) by (nonlinear_arith)
                requires
                    0 <= nf,
                    0 < h,
                    0 < w,
            ;
        }
        match b {
            Buf::Stage => g.in_ch * self.ih * self.iw,
            Buf::Feat => g.first_in_ch() * h * w,
            Buf::Ws => g.dense_width() * h * w,
            Buf::Up1 => g.num_feat * (h * 2) * (w * 2),
            Buf::Up2 => g.num_feat * (h * 4) * (w * 4),
            Buf::Hr => g.num_feat * (h * 4) * (w * 4),
            Buf::Out => g.out_ch * (h * 4) * (w * 4),
            _ => g.num_feat * h * w,
        }
    }

    /// Can every plane of the pass be held?
    pub fn is_wf(&self) -> (r: bool)
        ensures
            r == self.wf(),
    {
        let g = self.g;
        let (h, w) = if g.scale == 2 {
            (self.ih / 2, self.iw / 2)
        } else {
            (self.ih, self.iw)
        };
        if h != self.h || w != self.w || !can_hold(&g, h, w) {
            return false;
        }
        if g.scale == 2 && (self.ih % 2 != 0 || self.iw % 2 != 0) {
            return false;
        }
        if g.num_block > (usize::MAX - 6) / 15 {
            return false;
        }
        let first = if g.scale == 2 {
            g.in_ch.checked_mul(4)
        } else {
            Some(g.in_ch)
        };
        match first {
            None => false,
            Some(c) => product(c, h, w).is_some() && product(
                g.in_ch,
                self.ih,
                self.iw,
            ).is_some(),
        }
    }

    /// What the sizes have in them.
    pub proof fn lemma_sizes(&self)
        requires
            self.wf(),
        ensures
            0 <= self.g.num_feat * self.h * self.w <= usize::MAX,
            0 <= self.g.num_feat * self.h <= usize::MAX,
            self.h * 4 <= usize::MAX,
            self.w * 4 <= usize::MAX,
            0 <= 15 * self.g.num_block + 6 <= usize::MAX,
    {
        let (nf, h, w) = (self.g.num_feat as int, self.h as int, self.w as int);
        assert(0 <= nf * h <= nf * h * w <= nf * (h * 4) * (w * 4)) by (nonlinear_arith)
            requires
                0 <= nf,
                0 < h,
                0 < w,
        ;
        assert(h * 4 <= (h * 4) * (w * 4) && w * 4 <= (h * 4) * (w * 4)) by (nonlinear_arith)
            requires
                0 < h,
                0 < w,
        ;
    }

    fn copy_op(&self, src: Buf, dst: Buf) -> (r: DeviceOp)
        requires
            self.wf(),
        ensures
            r == self.copy(src, dst),
    {
        proof {
            self.lemma_sizes();
        }
        DeviceOp::Copy { src, dst, n: self.g.num_feat * self.h * self.w }
    }

    fn add_op(&self, a: Buf, b: Buf, dst: Buf, fifth: bool) -> (r: DeviceOp)
        requires
            self.wf(),
        ensures
            r == self.add(a, b, dst, fifth),
    {
        proof {
            self.lemma_sizes();
        }
        DeviceOp::AddScaled { a, b, dst, n: self.g.num_feat * self.h * self.w, fifth }
    }

    /// A convolution of the feature channels behind the body, whose number is
    /// `15 * num_block + n`.
    fn feature_op(&self, n: usize, src: Buf, dst: Buf, f: usize, act: bool) -> (r: DeviceOp)
        requires
            self.wf(),
            1 <= n <= 5,
            f == 1 || f == 2 || f == 4,
        ensures
            r == self.feature(15 * self.g.num_block + n, src, dst, f as int, act),
    {
        proof {
            self.lemma_sizes();
        }
        let c_out = if n == 5 {
            self.g.out_ch
        } else {
            self.g.num_feat
        };
        DeviceOp::Conv {
            layer: 15 * self.g.num_block + n,
            src,
            dst,
            dst_ch: 0,
            c_in: self.g.num_feat,
            c_out,
            h: self.h * f,
            w: self.w * f,
            act,
        }
    }

    fn dense_conv_op(&self, b: usize, r: usize, k: usize) -> (op: DeviceOp)
        requires
            self.wf(),
            b < self.g.num_block,
            r < 3,
            k < 5,
        ensures
            op == self.dense_conv(b as int, r as int, k as int),
    {
        proof {
            self.lemma_sizes();
            let (k, ng) = (k as int, self.g.num_grow_ch as int);
            assert(0 <= k * ng <= 4 * ng) by (nonlinear_arith)
                requires
                    0 <= k <= 4,
                    0 <= ng,
            ;
        }
        let c_in = self.g.num_feat + k * self.g.num_grow_ch;
        if k < 4 {
            DeviceOp::Conv {
                layer: 1 + 15 * b + 5 * r + k,
                src: Buf::Ws,
                dst: Buf::Ws,
                dst_ch: c_in,
                c_in,
                c_out: self.g.num_grow_ch,
                h: self.h,
                w: self.w,
                act: true,
            }
        } else {
            DeviceOp::Conv {
                layer: 1 + 15 * b + 5 * r + k,
                src: Buf::Ws,
                dst: Buf::X5,
                dst_ch: 0,
                c_in,
                c_out: self.g.num_feat,
                h: self.h,
                w: self.w,
                act: false,
            }
        }
    }

    fn push_dense(&self, b: usize, r: usize, ops: &mut Vec<DeviceOp>)
        requires
            self.wf(),
            b < self.g.num_block,
            r < 3,
        ensures
            final(ops)@ == old(ops)@ + self.dense_ops(b as int, r as int),
    {
        ops.push(self.copy_op(Buf::Cur, Buf::Ws));
        ops.push(self.dense_conv_op(b, r, 0));
        ops.push(self.dense_conv_op(b, r, 1));
        ops.push(self.dense_conv_op(b, r, 2));
        ops.push(self.dense_conv_op(b, r, 3));
        ops.push(self.dense_conv_op(b, r, 4));
        ops.push(self.add_op(Buf::Cur, Buf::X5, Buf::Rdb, true));
        ops.push(self.copy_op(Buf::Rdb, Buf::Cur));
        assert(ops@ =~= old(ops)@ + self.dense_ops(b as int, r as int));
    }

    fn push_block(&self, b: usize, ops: &mut Vec<DeviceOp>)
        requires
            self.wf(),
            b < self.g.num_block,
        ensures
            final(ops)@ == old(ops)@ + self.block_ops(b as int),
    {
        ops.push(self.copy_op(Buf::Cur, Buf::Save));
        self.push_dense(b, 0, ops);
        self.push_dense(b, 1, ops);
        self.push_dense(b, 2, ops);
        ops.push(self.add_op(Buf::Save, Buf::Cur, Buf::Rdb, true));
        ops.push(self.copy_op(Buf::Rdb, Buf::Cur));
        assert(ops@ =~= old(ops)@ + self.block_ops(b as int));
    }

    /// The whole pass, as operations on the device. The image is in `Stage` for
    /// the x2 model and in `Feat` otherwise, and the result comes to `Out`.
    pub fn forward_ops(&self) -> (ops: Vec<DeviceOp>)
        requires
            self.wf(),
        ensures
            ops@ == self.program(),
    {
        proof {
            self.lemma_sizes();
        }
        let g = self.g;
        let mut ops: Vec<DeviceOp> = Vec::new();
        if g.scale == 2 {
            ops.push(DeviceOp::Unshuffle { c: g.in_ch, h: self.ih, w: self.iw });
        }
        ops.push(
            DeviceOp::Conv {
                layer: 0,
                src: Buf::Feat,
                dst: Buf::Cur,
                dst_ch: 0,
                c_in: g.first_in_ch(),
                c_out: g.num_feat,
                h: self.h,
                w: self.w,
                act: false,
            },
        );
        ops.push(self.copy_op(Buf::Cur, Buf::Skip));
        assert(ops@ =~= self.head_ops());
        assert(self.head_ops() + self.body_ops(0) =~= self.head_ops());
        let mut b: usize = 0;
        while b < g.num_block
            invariant
                self.wf(),
                g == self.g,
                b <= g.num_block,
                ops@ == self.head_ops() + self.body_ops(b as nat),
            decreases g.num_block - b,
        {
            self.push_block(b, &mut ops);
            proof {
                let n = (b + 1) as nat;
                assert(n - 1 == b);
                assert(ops@ =~= self.head_ops() + self.body_ops(n));
            }
            b += 1;
        }
        let ghost upto = ops@;
        ops.push(self.feature_op(1, Buf::Cur, Buf::Body, 1, false));
        ops.push(self.add_op(Buf::Skip, Buf::Body, Buf::Cur, false));
        ops.push(
            DeviceOp::Upsample {
                src: Buf::Cur,
                dst: Buf::Up1,
                c: g.num_feat,
                h: self.h,
                w: self.w,
            },
        );
        ops.push(self.feature_op(2, Buf::Up1, Buf::Hr, 2, true));
        ops.push(
            DeviceOp::Upsample {
                src: Buf::Hr,
                dst: Buf::Up2,
                c: g.num_feat,
                h: self.h * 2,
                w: self.w * 2,
            },
        );
        ops.push(self.feature_op(3, Buf::Up2, Buf::Hr, 4, true));
        ops.push(self.feature_op(4, Buf::Hr, Buf::Up2, 4, true));
        ops.push(self.feature_op(5, Buf::Up2, Buf::Out, 4, false));
        assert(ops@ =~= upto + self.tail_ops());
        ops
    }
}

impl Extent {
    /// The operation reads and writes inside the buffers, what it writes does not
    /// overlap what it reads, and a convolution has the channels that its
    /// parameters have.
    pub open spec fn ok(&self, op: DeviceOp) -> bool {
        match op {
            DeviceOp::Unshuffle { c, h, w } => {
                &&& c * h * w <= self.len(Buf::Stage)
                &&& c * 4 * (h as int / 2) * (w as int / 2) <= self.len(Buf::Feat)
            },
            DeviceOp::Conv { layer, src, dst, dst_ch, c_in, c_out, h, w, act } => {
                &&& layer < self.g.layers()
                &&& c_in == self.g.layer_in(layer as int)
                &&& c_out == self.g.layer_out(layer as int)
                &&& 0 < h <= self.h * 4
                &&& 0 < w <= self.w * 4
                &&& c_in * h * w <= self.len(src)
                &&& (dst_ch + c_out) * h * w <= self.len(dst)
                &&& src == dst ==> c_in <= dst_ch
            },
            DeviceOp::Copy { src, dst, n } => {
                &&& n <= self.len(src)
                &&& n <= self.len(dst)
                &&& src != dst
            },
            DeviceOp::AddScaled { a, b, dst, n, fifth } => {
                &&& n <= self.len(a)
                &&& n <= self.len(b)
                &&& n <= self.len(dst)
                &&& dst != a
                &&& dst != b
            },
            DeviceOp::Upsample { src, dst, c, h, w } => {
                &&& 0 < h <= self.h * 2
                &&& 0 < w <= self.w * 2
                &&& c * h * w <= self.len(src)
                &&& c * (h * 2) * (w * 2) <= self.len(dst)
                &&& src != dst
            },
        }
    }

    /// So it is of all these operations.
    pub open spec fn all_ok(&self, ops: Seq<DeviceOp>) -> bool {
        forall|i: int| 0 <= i < ops.len() ==> self.ok(#[trigger] ops[i])
    }

    proof fn lemma_dense_ok(&self, b: int, r: int)
        requires
            self.wf(),
            0 <= b < self.g.num_block,
            0 <= r < 3,
        ensures
            self.all_ok(self.dense_ops(b, r)),
    {
        let (g, h, w) = (self.g, self.h as int, self.w as int);
        self.lemma_sizes();
        assert forall|k: int| 0 <= k < 5 implies self.ok(#[trigger] self.dense_conv(b, r, k)) by {
            lemma_prefix(g, h, w, k);
            lemma_dense_number(b, r, k);
            let a = g.num_feat + k * g.num_grow_ch;
            assert((a + g.num_grow_ch) * h * w == a * h * w + g.num_grow_ch * h * w)
                by (nonlinear_arith);
            assert(0 <= k * g.num_grow_ch) by (nonlinear_arith)
                requires
                    0 <= k,
                    0 <= g.num_grow_ch,
            ;
            assert(0 + g.num_feat == g.num_feat);
        }
        lemma_prefix(g, h, w, 0);
        assert(self.ok(self.dense_conv(b, r, 0)));
        assert(self.ok(self.dense_conv(b, r, 1)));
        assert(self.ok(self.dense_conv(b, r, 2)));
        assert(self.ok(self.dense_conv(b, r, 3)));
        assert(self.ok(self.dense_conv(b, r, 4)));
    }

    proof fn lemma_block_ok(&self, b: int)
        requires
            self.wf(),
            0 <= b < self.g.num_block,
        ensures
            self.all_ok(self.block_ops(b)),
    {
        self.lemma_sizes();
        self.lemma_dense_ok(b, 0);
        self.lemma_dense_ok(b, 1);
        self.lemma_dense_ok(b, 2);
        let (d0, d1, d2) = (self.dense_ops(b, 0), self.dense_ops(b, 1), self.dense_ops(b, 2));
        let ops = self.block_ops(b);
        assert forall|i: int| 0 <= i < ops.len() implies self.ok(#[trigger] ops[i]) by {
            if 1 <= i < 9 {
                assert(ops[i] == d0[i - 1]);
            } else if 9 <= i < 17 {
                assert(ops[i] == d1[i - 9]);
            } else if 17 <= i < 25 {
                assert(ops[i] == d2[i - 17]);
            }
        }
    }

    proof fn lemma_body_ok(&self, n: nat)
        requires
            self.wf(),
            n <= self.g.num_block,
        ensures
            self.all_ok(self.body_ops(n)),
        decreases n,
    {
        if n > 0 {
            let m = (n - 1) as nat;
            self.lemma_body_ok(m);
            self.lemma_block_ok(n - 1);
            let (a, b) = (self.body_ops(m), self.block_ops(n - 1));
            let ops = self.body_ops(n);
            assert forall|i: int| 0 <= i < ops.len() implies self.ok(#[trigger] ops[i]) by {
                if i < a.len() {
                    assert(ops[i] == a[i]);
                } else {
                    assert(ops[i] == b[i - a.len()]);
                }
            }
        }
    }

    /// The result has the network's scale: `scale` times the rows and the columns of
    /// the image.
    pub proof fn result_has_the_scale(&self)
        requires
            self.wf(),
            self.g.scale == 2 || self.g.scale == 4,
        ensures
            self.len(Buf::Out) == self.g.out_ch * (self.g.scale * self.ih) * (self.g.scale
                * self.iw),
    {
        assert(self.h * 4 == self.g.scale * self.ih && self.w * 4 == self.g.scale * self.iw);
    }

    /// Every operation of the program stays inside its buffers, never reads what
    /// it writes, and launches each convolution with the channels of its own
    /// parameters.
    pub proof fn program_stays_in_bounds(&self)
        requires
            self.wf(),
        ensures
            self.all_ok(self.program()),
    {
        let (g, h, w) = (self.g, self.h as int, self.w as int);
        let (nf, oc, l) = (g.num_feat as int, g.out_ch as int, 15 * g.num_block);
        self.lemma_sizes();
        self.lemma_body_ok(g.num_block as nat);
        assert(nf * h * w <= nf * (h * 2) * (w * 2) <= nf * (h * 4) * (w * 4)) by (nonlinear_arith)
            requires
                0 <= nf,
                0 < h,
                0 < w,
        ;
        assert(h * 2 * 2 == h * 4 && w * 2 * 2 == w * 4);
        assert(h * 1 == h && w * 1 == w);
        let (head, body, tail) = (
            self.head_ops(),
            self.body_ops(g.num_block as nat),
            self.tail_ops(),
        );
        assert(self.all_ok(head));
        assert(self.ok(tail[0]) && self.ok(tail[1]) && self.ok(tail[2]) && self.ok(tail[3]));
        assert(self.ok(tail[4]) && self.ok(tail[5]) && self.ok(tail[6]) && self.ok(tail[7]));
        let ops = self.program();
        assert forall|i: int| 0 <= i < ops.len() implies self.ok(#[trigger] ops[i]) by {
            if i < head.len() {
                assert(ops[i] == head[i]);
            } else if i < head.len() + body.len() {
                assert(ops[i] == body[i - head.len()]);
            } else {
                assert(ops[i] == tail[i - head.len() - body.len()]);
            }
        }
    }
}

} // verus!
