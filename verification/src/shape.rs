//! The launch table of the convolution kernels.
//!
//! There are two: the Winograd convolution, which is the default, and a direct
//! convolution for tensors too small for it. The table holds a kernel's name, its
//! launch geometry, its channel blocking and its argument list: a host that
//! disagrees with a kernel about any of these gets wrong numbers and no error. A
//! tensor too small for the table is launched apart, without a chunk.

use vstd::prelude::*;

use crate::text::same_text;

verus! {

/// The name of the Winograd convolution.
pub const WINOGRAD: &'static str = "lg_conv3x3_winograd";

/// The name of the direct convolution.
pub const DIRECT: &'static str = "lg_conv3x3_res";

/// The name of the matrix product, which is only measured.
pub const GEMM: &'static str = "lg_f32_gemm_tiled";

/// Shared memory that a kernel may use, in bytes.
pub const SMEM_CAP: u32 = 49152;

/// One fifth in single precision, as its bits.
pub const FIFTH_BITS: u32 = 0x3E4C_CCCD;

/// One in single precision, as its bits.
pub const ONE_BITS: u32 = 0x3F80_0000;

/// One argument of a kernel. A single-precision number is given by its bits.
#[derive(Clone, Copy, PartialEq, Eq, Structural, Debug)]
pub enum Arg {
    Ptr(u64),
    I32(i32),
    I64(i64),
    F32(u32),
}

/// The geometry of a launch: the blocks of the grid, the threads of a block, and
/// the bytes of shared memory.
#[derive(Clone, Copy, PartialEq, Eq, Debug)]
pub struct Launch {
    pub grid: (u32, u32, u32),
    pub block: (u32, u32, u32),
    pub shared: u32,
}

/// The operands of a convolution's launch: the addresses of the source, the
/// weights, the biases and the destination, and the sizes.
#[derive(Clone, Copy, PartialEq, Eq, Structural, Debug)]
pub struct Operands {
    pub src: u64,
    pub weights: u64,
    pub bias: u64,
    pub dst: u64,
    pub c_in: usize,
    pub c_out: usize,
    pub h: usize,
    pub w: usize,
    pub act: bool,
}

/// One row of the table.
#[derive(Clone, Copy)]
pub struct ConvShape {
    pub name: &'static str,
    /// Rows of output pixels that a block covers.
    pub ty: u32,
    /// Output columns that a thread accumulates.
    pub cx: u32,
    /// Threads along x.
    pub tx: u32,
    /// Shared-memory buffers that the kernel stages into.
    pub buffers: u32,
    /// Values of shared memory per channel of the chunk and per buffer.
    pub smem_per_chunk: u32,
    /// Output channels per block, as the Winograd kernel is told.
    pub ocb: u32,
    /// Output channels that one block covers, by which the grid divides.
    pub oc_per_cta: u32,
}

/// `a / b`, rounded up.
pub open spec fn ceil_of(a: int, b: int) -> int {
    (a + b - 1) / b
}

/// `a / b`, rounded up.
pub fn ceil_div(a: u32, b: u32) -> (r: u32)
    requires
        0 < b,
    ensures
        r == ceil_of(a as int, b as int),
{
    proof {
        lemma_ceil(a as int, b as int);
        let (a, b) = (a as int, b as int);
        vstd::arithmetic::div_mod::lemma_fundamental_div_mod(a, b);
        let (q, m) = (a / b, a % b);
        if m == 0 {
            vstd::arithmetic::div_mod::lemma_fundamental_div_mod_converse(a + b - 1, b, q, b - 1);
        } else {
            assert((q + 1) * b == b * q + b) by (nonlinear_arith);
            vstd::arithmetic::div_mod::lemma_fundamental_div_mod_converse(
                a + b - 1,
                b,
                q + 1,
                m - 1,
            );
        }
        assert(q <= a) by (nonlinear_arith)
            requires
                0 <= a,
                1 <= b,
                b * q <= a,
                0 <= q,
        ;
        if q == a {
            assert(b * q >= q) by (nonlinear_arith)
                requires
                    1 <= b,
                    0 <= q,
            ;
        }
    }
    if a % b == 0 {
        a / b
    } else {
        a / b + 1
    }
}

/// That many parts of size `b` cover `a`, and one less does not.
pub proof fn lemma_ceil(a: int, b: int)
    requires
        0 <= a,
        0 < b,
    ensures
        0 <= ceil_of(a, b),
        a <= ceil_of(a, b) * b < a + b,
        0 < a ==> 0 < ceil_of(a, b),
        ceil_of(a, b) <= a,
{
    let q = ceil_of(a, b);
    vstd::arithmetic::div_mod::lemma_fundamental_div_mod(a + b - 1, b);
    assert(b * q == q * b) by (nonlinear_arith);
    assert(0 <= q) by (nonlinear_arith)
        requires
            0 <= a,
            0 < b,
            a <= q * b,
    ;
    assert(q <= a) by (nonlinear_arith)
        requires
            q * b < a + b,
            0 <= a,
            1 <= b,
    ;
    if 0 < a {
        assert(0 < q) by (nonlinear_arith)
            requires
                0 < a <= q * b,
                0 < b,
        ;
    }
}

impl ConvShape {
    /// The Winograd convolution's row.
    pub open spec fn winograd_row(&self) -> bool {
        &&& self.name@ == WINOGRAD@
        &&& self.ty == 16
        &&& self.cx == 4
        &&& self.tx == 16
        &&& self.buffers == 1
        &&& self.smem_per_chunk == 2 * 16 * 36
        &&& self.ocb == 16
        &&& self.oc_per_cta == 16
    }

    /// A row of the tiled family: a block stages a patch of its pixels and one
    /// more on each side, and covers as many channels as rows.
    pub open spec fn tiled_row(
        &self,
        name: Seq<char>,
        ty: u32,
        cx: u32,
        tx: u32,
        buffers: u32,
    ) -> bool {
        &&& self.name@ == name
        &&& self.ty == ty
        &&& self.cx == cx
        &&& self.tx == tx
        &&& self.buffers == buffers
        &&& self.smem_per_chunk == (tx * cx + 2) * (ty + 2)
        &&& self.ocb == ty
        &&& self.oc_per_cta == ty
    }

    /// The direct convolution's row.
    pub open spec fn direct_row(&self) -> bool {
        self.tiled_row(DIRECT@, 8, 1, 32, 1)
    }

    /// This is a row of the table.
    pub open spec fn tabled(&self) -> bool {
        self.winograd_row() || self.direct_row()
    }

    /// Is this the Winograd convolution?
    pub open spec fn is_winograd(&self) -> bool {
        self.name@ == WINOGRAD@
    }

    /// Output pixels that a block covers along x and y.
    pub open spec fn covers(&self) -> (int, int) {
        if self.is_winograd() {
            (4 * self.cx, 4 * self.cx)
        } else {
            (self.tx * self.cx, self.ty as int)
        }
    }

    /// Bytes of shared memory per channel of the chunk.
    pub open spec fn chunk_bytes(&self) -> int {
        self.smem_per_chunk * 4 * self.buffers
    }

    /// A tile-parameterised row.
    pub fn tiled(name: &'static str, ty: u32, cx: u32, tx: u32, buffers: u32) -> (r: ConvShape)
        requires
            (tx * cx + 2) * (ty + 2) <= u32::MAX,
        ensures
            r.tiled_row(name@, ty, cx, tx, buffers),
    {
        proof {
            let (a, b) = (tx * cx + 2, ty + 2);
            assert(0 <= tx * cx) by (nonlinear_arith)
                requires
                    0 <= tx,
                    0 <= cx,
            ;
            assert(a <= a * b && b <= a * b) by (nonlinear_arith)
                requires
                    1 <= a,
                    1 <= b,
            ;
        }
        let span = tx * cx;
        ConvShape {
            name,
            ty,
            cx,
            tx,
            buffers,
            smem_per_chunk: (span + 2) * (ty + 2),
            ocb: ty,
            oc_per_cta: ty,
        }
    }

    /// The Winograd row. It stages two transformed blocks per channel, 16 tiles of
    /// 36 values and 16 channels of 36 values, and a block covers 4 by 4 tiles of
    /// 4 by 4 pixels.
    pub fn winograd() -> (r: ConvShape)
        ensures
            r.winograd_row(),
    {
        ConvShape {
            name: WINOGRAD,
            ty: 16,
            cx: 4,
            tx: 16,
            buffers: 1,
            smem_per_chunk: 2 * 16 * 36,
            ocb: 16,
            oc_per_cta: 16,
        }
    }

    /// Is this the Winograd convolution? It is told by its whole name.
    pub fn is_toolkit_winograd(&self) -> (r: bool)
        ensures
            r == self.is_winograd(),
    {
        same_text(self.name, WINOGRAD)
    }

    /// Output pixels that a block of the tiled family covers along x.
    pub fn span(&self) -> (r: u32)
        requires
            self.tx * self.cx <= u32::MAX,
        ensures
            r == self.tx * self.cx,
    {
        self.tx * self.cx
    }

    /// The channel chunk that is launched where `asked` is asked for: at least one,
    /// and no more than fit into shared memory.
    pub open spec fn chunk(&self, asked: int) -> int {
        let cap = SMEM_CAP as int / self.chunk_bytes();
        if asked < 1 {
            1
        } else if asked < cap {
            asked
        } else {
            cap
        }
    }

    /// The channel chunk, and the bytes of shared memory it takes. The asked-for
    /// chunk is a preference: it is clamped to what fits. One channel fits.
    pub fn chunk_and_smem(&self, requested: i32) -> (r: (i32, u32))
        requires
            0 < self.chunk_bytes() <= SMEM_CAP,
        ensures
            1 <= r.0,
            r.0 == self.chunk(requested as int),
            r.1 == r.0 * self.chunk_bytes(),
            r.1 <= SMEM_CAP,
    {
        let ghost n = self.chunk_bytes();
        proof {
            assert(self.smem_per_chunk * 4 <= n) by (nonlinear_arith)
                requires
                    n == self.smem_per_chunk * 4 * self.buffers,
                    0 < n,
                    0 <= self.smem_per_chunk,
                    0 <= self.buffers,
            ;
        }
        let per_chunk = self.smem_per_chunk * 4;
        let cap: i32 = (SMEM_CAP / (per_chunk * self.buffers)) as i32;
        let c_chunk = if requested < 1 {
            1
        } else if requested < cap {
            requested
        } else {
            cap
        };
        proof {
            vstd::arithmetic::div_mod::lemma_fundamental_div_mod(SMEM_CAP as int, n);
            let (k, cap) = (c_chunk as int, SMEM_CAP as int / n);
            assert(n * cap == cap * n && (cap + 1) * n == cap * n + n) by (nonlinear_arith);
            assert(cap >= 1) by (nonlinear_arith)
                requires
                    0 < n <= SMEM_CAP,
                    SMEM_CAP < (cap + 1) * n,
            ;
            assert(0 <= k * n <= cap * n) by (nonlinear_arith)
                requires
                    1 <= k <= cap,
                    0 < n,
            ;
            assert(k * (per_chunk as int) * self.buffers == k * n) by (nonlinear_arith)
                requires
                    n == per_chunk * self.buffers,
            ;
            assert(k * per_chunk <= k * n) by (nonlinear_arith)
                requires
                    per_chunk <= n,
                    1 <= k,
            ;
        }
        (c_chunk, (c_chunk as u32) * per_chunk * self.buffers)
    }

    /// The threads of a block.
    pub fn block(&self) -> (r: (u32, u32, u32))
        ensures
            r == if self.is_winograd() {
                (256u32, 1u32, 1u32)
            } else {
                (self.tx, self.ty, 1u32)
            },
    {
        if self.is_toolkit_winograd() {
            (256, 1, 1)
        } else {
            (self.tx, self.ty, 1)
        }
    }

    /// Output pixels that a block covers along x and y.
    pub fn cta_out(&self) -> (r: (u32, u32))
        requires
            self.covers().0 <= u32::MAX,
            self.covers().1 <= u32::MAX,
        ensures
            r.0 == self.covers().0,
            r.1 == self.covers().1,
    {
        if self.is_toolkit_winograd() {
            (4 * self.cx, 4 * self.cx)
        } else {
            (self.span(), self.ty)
        }
    }

    /// The launch for an image of `w` by `h` pixels and `c_out` channels: the grid
    /// from what a block covers.
    pub fn launch(&self, w: usize, h: usize, c_out: usize, shared: u32) -> (r: Launch)
        requires
            0 < self.covers().0 <= u32::MAX,
            0 < self.covers().1 <= u32::MAX,
            0 < self.oc_per_cta,
        ensures
            r.grid.0 == ceil_of((w as u32) as int, self.covers().0),
            r.grid.1 == ceil_of((h as u32) as int, self.covers().1),
            r.grid.2 == ceil_of((c_out as u32) as int, self.oc_per_cta as int),
            r.block == if self.is_winograd() {
                (256u32, 1u32, 1u32)
            } else {
                (self.tx, self.ty, 1u32)
            },
            r.shared == shared,
    {
        let (cw, ch) = self.cta_out();
        let (bx, by, _) = self.block();
        Launch {
            grid: (
                ceil_div(w as u32, cw),
                ceil_div(h as u32, ch),
                ceil_div(c_out as u32, self.oc_per_cta),
            ),
            block: (bx, by, 1),
            shared,
        }
    }

    /// The row of a name given by the user, or `None` for any other.
    pub fn by_name(name: &str) -> (r: Option<ConvShape>)
        ensures
            match r {
                Some(s) => (name@ == "wg"@ && s.winograd_row()) || (name@ == "direct"@
                    && s.direct_row()),
                None => name@ != "wg"@ && name@ != "direct"@,
            },
    {
        proof {
            reveal_strlit("wg");
            reveal_strlit("direct");
        }
        if same_text(name, "wg") {
            Some(ConvShape::winograd())
        } else if same_text(name, "direct") {
            Some(ConvShape::tiled(DIRECT, 8, 1, 32, 1))
        } else {
            None
        }
    }

    /// The row of a variant number: the direct convolution is 0.
    pub fn by_index(v: usize) -> (r: ConvShape)
        ensures
            if v == 0 {
                r.direct_row()
            } else {
                r.winograd_row()
            },
    {
        match v {
            0 => ConvShape::tiled(DIRECT, 8, 1, 32, 1),
            _ => ConvShape::winograd(),
        }
    }

    /// The argument list of a row. The Winograd kernel takes twelve arguments, the
    /// direct one nine.
    pub open spec fn arguments(&self, o: Operands, c_chunk: i32) -> Seq<Arg> {
        if self.is_winograd() {
            seq![
                Arg::Ptr(o.src),
                Arg::Ptr(o.weights),
                Arg::Ptr(o.bias),
                Arg::Ptr(o.dst),
                Arg::I32(o.c_in as i32),
                Arg::I32(o.c_out as i32),
                Arg::I32(o.h as i32),
                Arg::I32(o.w as i32),
                Arg::I32(c_chunk),
                Arg::I32(self.ocb as i32),
                Arg::I32(
                    if o.act {
                        2
                    } else {
                        0
                    },
                ),
                Arg::F32(FIFTH_BITS),
            ]
        } else {
            direct_arguments(o)
        }
    }

    /// The argument list of a row.
    pub fn args(&self, o: &Operands, c_chunk: i32) -> (r: Vec<Arg>)
        ensures
            r@ == self.arguments(*o, c_chunk),
    {
        if self.is_toolkit_winograd() {
            let code: i32 = if o.act {
                2
            } else {
                0
            };
            let r = vec![
                Arg::Ptr(o.src),
                Arg::Ptr(o.weights),
                Arg::Ptr(o.bias),
                Arg::Ptr(o.dst),
                Arg::I32(o.c_in as i32),
                Arg::I32(o.c_out as i32),
                Arg::I32(o.h as i32),
                Arg::I32(o.w as i32),
                Arg::I32(c_chunk),
                Arg::I32(self.ocb as i32),
                Arg::I32(code),
                Arg::F32(FIFTH_BITS),
            ];
            assert(r@ =~= self.arguments(*o, c_chunk));
            r
        } else {
            direct_args(o)
        }
    }
}

/// The direct convolution's argument list.
pub open spec fn direct_arguments(o: Operands) -> Seq<Arg> {
    seq![
        Arg::Ptr(o.src),
        Arg::Ptr(o.weights),
        Arg::Ptr(o.bias),
        Arg::Ptr(o.dst),
        Arg::I32(o.c_in as i32),
        Arg::I32(o.c_out as i32),
        Arg::I32(o.h as i32),
        Arg::I32(o.w as i32),
        Arg::I32(
            if o.act {
                1
            } else {
                0
            },
        ),
    ]
}

/// The direct convolution's argument list.
pub fn direct_args(o: &Operands) -> (r: Vec<Arg>)
    ensures
        r@ == direct_arguments(*o),
{
    let act: i32 = if o.act {
        1
    } else {
        0
    };
    let r = vec![
        Arg::Ptr(o.src),
        Arg::Ptr(o.weights),
        Arg::Ptr(o.bias),
        Arg::Ptr(o.dst),
        Arg::I32(o.c_in as i32),
        Arg::I32(o.c_out as i32),
        Arg::I32(o.h as i32),
        Arg::I32(o.w as i32),
        Arg::I32(act),
    ];
    assert(r@ =~= direct_arguments(*o));
    r
}

/// The grid of a tabled launch covers the image and its channels: every output
/// pixel and every output channel has a block, and no block lies wholly outside.
pub proof fn grid_covers_the_image(s: &ConvShape, l: Launch, w: int, h: int, c_out: int)
    requires
        s.tabled(),
        0 < w <= u32::MAX,
        0 < h <= u32::MAX,
        0 < c_out <= u32::MAX,
        l.grid.0 == ceil_of(w, s.covers().0),
        l.grid.1 == ceil_of(h, s.covers().1),
        l.grid.2 == ceil_of(c_out, s.oc_per_cta as int),
    ensures
        (l.grid.0 - 1) * s.covers().0 < w <= l.grid.0 * s.covers().0,
        (l.grid.1 - 1) * s.covers().1 < h <= l.grid.1 * s.covers().1,
        (l.grid.2 - 1) * s.oc_per_cta < c_out <= l.grid.2 * s.oc_per_cta,
{
    lemma_ceil(w, s.covers().0);
    lemma_ceil(h, s.covers().1);
    lemma_ceil(c_out, s.oc_per_cta as int);
    assert((l.grid.0 - 1) * s.covers().0 == l.grid.0 * s.covers().0 - s.covers().0)
        by (nonlinear_arith);
    assert((l.grid.1 - 1) * s.covers().1 == l.grid.1 * s.covers().1 - s.covers().1)
        by (nonlinear_arith);
    assert((l.grid.2 - 1) * s.oc_per_cta == l.grid.2 * s.oc_per_cta - s.oc_per_cta)
        by (nonlinear_arith);
}

/// The two rows have different names.
pub proof fn lemma_names_differ()
    ensures
        WINOGRAD@ != DIRECT@,
{
    reveal_strlit("lg_conv3x3_winograd");
    reveal_strlit("lg_conv3x3_res");
    assert(WINOGRAD@.len() != DIRECT@.len());
}

/// The channel chunk of a tabled row fits into shared memory, whatever was asked
/// for.
pub proof fn tabled_chunk_fits(s: &ConvShape)
    requires
        s.tabled(),
    ensures
        0 < s.chunk_bytes() <= SMEM_CAP,
        0 < s.covers().0 <= u32::MAX,
        0 < s.covers().1 <= u32::MAX,
{
    lemma_names_differ();
    if s.direct_row() {
        let (tx, cx, ty) = (s.tx as int, s.cx as int, s.ty as int);
        assert(tx * cx == 32 && (tx * cx + 2) * (ty + 2) == 340) by (nonlinear_arith)
            requires
                tx == 32,
                cx == 1,
                ty == 8,
        ;
    }
    let (n, k) = (s.smem_per_chunk * 4, s.buffers as int);
    assert(n * k == n) by (nonlinear_arith)
        requires
            k == 1,
    ;
}

} // verus!
