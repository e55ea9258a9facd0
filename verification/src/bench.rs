//! What the measurements run: their shapes, their operands and their launches.

use vstd::prelude::*;

use crate::arith::plus_is;
use crate::arith::times_is;
use crate::arith::zero_is;
use crate::arith::Arith;
use crate::device::is_kernel;
use crate::device::tabled_kernels_are_resolved;
use crate::grid::lemma_quot_rem;
use crate::launch::tabled;
use crate::launch::tabled_call;
use crate::launch::unknown_row;
use crate::launch::unknown_text;
use crate::launch::KernelCall;
use crate::shape::ceil_of;
use crate::shape::Arg;
use crate::shape::ConvShape;
use crate::shape::Launch;
use crate::shape::Operands;
use crate::shape::GEMM;

verus! {

/// The shape of a convolution that is timed.
#[derive(Clone, Copy, PartialEq, Eq, Structural, Debug)]
pub struct BenchShape {
    pub c_in: usize,
    pub c_out: usize,
    pub h: usize,
    pub w: usize,
}

/// A shape that is timed.
pub open spec fn timed(c_in: usize, c_out: usize, h: usize, w: usize) -> BenchShape {
    BenchShape { c_in, c_out, h, w }
}

/// The shapes on which the device's convolution is timed: the dense body, the
/// first convolution, the largest stage, pairs with equal work and different
/// staging, and the sizes that a block covers exactly.
pub open spec fn all_fused_shapes() -> Seq<BenchShape> {
    seq![
        timed(64, 64, 256, 256),
        timed(3, 64, 256, 256),
        timed(64, 64, 1024, 1024),
        timed(64, 16, 256, 256),
        timed(16, 64, 256, 256),
        timed(64, 32, 256, 256),
        timed(32, 64, 256, 256),
        timed(64, 64, 16, 16),
        timed(64, 32, 16, 16),
        timed(16, 16, 16, 16),
        timed(64, 64, 64, 64),
    ]
}

/// The shapes on which the device's convolution is timed.
pub fn fused_shapes() -> (r: Vec<BenchShape>)
    ensures
        r@ == all_fused_shapes(),
{
    let r = vec![
        BenchShape { c_in: 64, c_out: 64, h: 256, w: 256 },
        BenchShape { c_in: 3, c_out: 64, h: 256, w: 256 },
        BenchShape { c_in: 64, c_out: 64, h: 1024, w: 1024 },
        BenchShape { c_in: 64, c_out: 16, h: 256, w: 256 },
        BenchShape { c_in: 16, c_out: 64, h: 256, w: 256 },
        BenchShape { c_in: 64, c_out: 32, h: 256, w: 256 },
        BenchShape { c_in: 32, c_out: 64, h: 256, w: 256 },
        BenchShape { c_in: 64, c_out: 64, h: 16, w: 16 },
        BenchShape { c_in: 64, c_out: 32, h: 16, w: 16 },
        BenchShape { c_in: 16, c_out: 16, h: 16, w: 16 },
        BenchShape { c_in: 64, c_out: 64, h: 64, w: 64 },
    ];
    assert(r@ =~= all_fused_shapes());
    r
}

/// `s` is the table's row that the user named, or the Winograd row.
pub open spec fn chosen_row(variant: Option<String>, s: ConvShape) -> bool {
    match variant {
        Some(v) => (v@ == "wg"@ && s.winograd_row()) || (v@ == "direct"@ && s.direct_row()),
        None => s.winograd_row(),
    }
}

impl BenchShape {
    /// Multiplications of the direct convolution: nine for every pair of channels
    /// and every pixel.
    pub open spec fn work(&self) -> int {
        self.c_in * self.c_out * 9 * (self.h * self.w)
    }

    /// Multiplications of the direct convolution.
    pub fn products(&self) -> (r: usize)
        requires
            self.h * self.w <= usize::MAX,
            self.c_in * self.c_out * 9 <= usize::MAX,
            self.work() <= usize::MAX,
        ensures
            r == self.work(),
    {
        proof {
            assert(0 <= self.c_in * self.c_out) by (nonlinear_arith)
                requires
                    0 <= self.c_in,
                    0 <= self.c_out,
            ;
        }
        self.c_in * self.c_out * 9 * (self.h * self.w)
    }

    /// The operands of the launch. The parameters are one buffer at `params`, the
    /// weights before the biases.
    pub open spec fn operands(&self, src: u64, params: u64, dst: u64) -> Operands {
        Operands {
            src,
            weights: params,
            bias: (params + self.c_out * self.c_in * 9 * 4) as u64,
            dst,
            c_in: self.c_in,
            c_out: self.c_out,
            h: self.h,
            w: self.w,
            act: false,
        }
    }

    /// `call` is the launch of the chosen row.
    pub open spec fn launched(
        &self,
        variant: Option<String>,
        src: u64,
        params: u64,
        dst: u64,
        call: &KernelCall,
    ) -> bool {
        exists|s: ConvShape|
            {
                &&& chosen_row(variant, s)
                &&& #[trigger] tabled_call(&s, self.operands(src, params, dst), 16, call)
            }
    }

    /// The launch that is timed: of the table's row that the user named, or of the
    /// Winograd row. A row that the table does not have is an error.
    pub fn call(&self, variant: &Option<String>, src: u64, params: u64, dst: u64) -> (r: Result<
        KernelCall,
        String,
    >)
        requires
            self.c_out * self.c_in * 9 * 4 <= usize::MAX,
            params + self.c_out * self.c_in * 9 * 4 <= u64::MAX,
        ensures
            match r {
                Ok(call) => self.launched(*variant, src, params, dst, &call),
                Err(t) => *variant matches Some(v) && v@ != "wg"@ && v@ != "direct"@ && t@
                    == unknown_row(v@),
            },
            r matches Ok(call) ==> is_kernel(call.name@),
    {
        proof {
            assert(0 <= self.c_out * self.c_in) by (nonlinear_arith)
                requires
                    0 <= self.c_in,
                    0 <= self.c_out,
            ;
        }
        let s = match variant {
            Some(v) => match ConvShape::by_name(v.as_str()) {
                Some(s) => s,
                None => {
                    return Err(unknown_text(v.as_str()));
                },
            },
            None => ConvShape::winograd(),
        };
        let o = Operands {
            src,
            weights: params,
            bias: params + (self.c_out * self.c_in * 9 * 4) as u64,
            dst,
            c_in: self.c_in,
            c_out: self.c_out,
            h: self.h,
            w: self.w,
            act: false,
        };
        let r = tabled(&s, &o, 16);
        proof {
            assert(chosen_row(*variant, s));
            assert(tabled_call(&s, self.operands(src, params, dst), 16, &r));
            assert(self.launched(*variant, src, params, dst, &r));
            tabled_kernels_are_resolved(&s, self.operands(src, params, dst), 16, &r);
        }
        Ok(r)
    }
}

/// The shape of a matrix product that is timed: the common side, the rows of the
/// first operand, and the columns of the second.
#[derive(Clone, Copy, PartialEq, Eq, Structural, Debug)]
pub struct GemmShape {
    pub ne0: usize,
    pub ne1: usize,
    pub ncols: usize,
}

impl GemmShape {
    /// The launch of a product: blocks of 256 threads, each for 64 rows and 32
    /// columns.
    pub open spec fn launch(&self) -> Launch {
        Launch {
            grid: (
                ceil_of(self.ne1 as int, 64) as u32,
                ceil_of(self.ncols as int, 32) as u32,
                1u32,
            ),
            block: (256u32, 1u32, 1u32),
            shared: 0,
        }
    }

    /// `call` is the launch of the product of `w` and `x` into `y`.
    pub open spec fn launched(&self, w: u64, x: u64, y: u64, call: &KernelCall) -> bool {
        call.is(
            GEMM@,
            self.launch(),
            seq![
                Arg::Ptr(w),
                Arg::Ptr(x),
                Arg::Ptr(y),
                Arg::I32(self.ne0 as i32),
                Arg::I32(self.ne1 as i32),
                Arg::I32(self.ncols as i32),
            ],
        )
    }

    /// The launch of the product of `w` and `x` into `y`. The kernel reads the common
    /// side four values at a time.
    pub fn call(&self, w: u64, x: u64, y: u64) -> (r: KernelCall)
        requires
            self.ne0 % 4 == 0,
            self.ne1 + 63 <= usize::MAX,
            self.ncols + 31 <= usize::MAX,
        ensures
            self.launched(w, x, y, &r),
            is_kernel(r.name@),
    {
        let args = vec![
            Arg::Ptr(w),
            Arg::Ptr(x),
            Arg::Ptr(y),
            Arg::I32(self.ne0 as i32),
            Arg::I32(self.ne1 as i32),
            Arg::I32(self.ncols as i32),
        ];
        assert(args@ =~= seq![
            Arg::Ptr(w),
            Arg::Ptr(x),
            Arg::Ptr(y),
            Arg::I32(self.ne0 as i32),
            Arg::I32(self.ne1 as i32),
            Arg::I32(self.ncols as i32),
        ]);
        let grid = (((self.ne1 + 63) / 64) as u32, ((self.ncols + 31) / 32) as u32, 1u32);
        KernelCall {
            name: GEMM,
            launch: Launch { grid, block: (256, 1, 1), shared: 0 },
            args,
        }
    }
}

/// The products that the network's shapes would make, of which one launch is
/// mostly overhead.
pub fn network_gemms() -> (r: Vec<GemmShape>)
    ensures
        r@ == seq![
            GemmShape { ne0: 64, ne1: 64, ncols: 4096 },
            GemmShape { ne0: 64, ne1: 64, ncols: 16384 },
            GemmShape { ne0: 192, ne1: 64, ncols: 4096 },
        ],
{
    let r = vec![
        GemmShape { ne0: 64, ne1: 64, ncols: 4096 },
        GemmShape { ne0: 64, ne1: 64, ncols: 16384 },
        GemmShape { ne0: 192, ne1: 64, ncols: 4096 },
    ];
    assert(r@ =~= seq![
        GemmShape { ne0: 64, ne1: 64, ncols: 4096 },
        GemmShape { ne0: 64, ne1: 64, ncols: 16384 },
        GemmShape { ne0: 192, ne1: 64, ncols: 4096 },
    ]);
    r
}

/// Products with enough work to show what the kernel reaches.
pub fn large_gemms() -> (r: Vec<GemmShape>)
    ensures
        r@ == seq![
            GemmShape { ne0: 64, ne1: 64, ncols: 65536 },
            GemmShape { ne0: 64, ne1: 64, ncols: 262144 },
            GemmShape { ne0: 192, ne1: 64, ncols: 262144 },
            GemmShape { ne0: 64, ne1: 128, ncols: 262144 },
        ],
{
    let r = vec![
        GemmShape { ne0: 64, ne1: 64, ncols: 65536 },
        GemmShape { ne0: 64, ne1: 64, ncols: 262144 },
        GemmShape { ne0: 192, ne1: 64, ncols: 262144 },
        GemmShape { ne0: 64, ne1: 128, ncols: 262144 },
    ];
    assert(r@ =~= seq![
        GemmShape { ne0: 64, ne1: 64, ncols: 65536 },
        GemmShape { ne0: 64, ne1: 64, ncols: 262144 },
        GemmShape { ne0: 192, ne1: 64, ncols: 262144 },
        GemmShape { ne0: 64, ne1: 128, ncols: 262144 },
    ]);
    r
}

/// The numbers `i * step % modulus`, from which operands are made.
pub fn pattern(n: usize, step: usize, modulus: usize) -> (r: Vec<usize>)
    requires
        0 < modulus,
        n * step <= usize::MAX,
    ensures
        r@.len() == n,
        forall|i: int| 0 <= i < n ==> #[trigger] r@[i] == (i * step) % (modulus as int),
{
    let mut r: Vec<usize> = Vec::new();
    while r.len() < n
        invariant
            0 < modulus,
            n * step <= usize::MAX,
            r@.len() <= n,
            forall|i: int|
                0 <= i < r@.len() ==> #[trigger] r@[i] == (i * step) % (modulus as int),
        decreases n - r@.len(),
    {
        let i = r.len();
        assert(0 <= i * step <= n * step) by (nonlinear_arith)
            requires
                0 <= i <= n,
                0 <= step,
        ;
        r.push(i * step % modulus);
    }
    r
}

/// `r` is the sum of the first `n` products of row `row` of `w` and column `col`
/// of `x`, in order.
pub open spec fn dot_is<T, A: Arith<T>>(
    ops: &A,
    w: Seq<T>,
    x: Seq<T>,
    ne0: int,
    row: int,
    col: int,
    n: nat,
    r: T,
) -> bool
    decreases n,
{
    if n == 0 {
        zero_is(ops, r)
    } else {
        exists|p: T|
            {
                &&& dot_is(ops, w, x, ne0, row, col, (n - 1) as nat, p)
                &&& #[trigger] product_added(
                    ops,
                    w[row * ne0 + n - 1],
                    x[col * ne0 + n - 1],
                    p,
                    r,
                )
            }
    }
}

/// `r` is `p + a * b`.
pub open spec fn product_added<T, A: Arith<T>>(ops: &A, a: T, b: T, p: T, r: T) -> bool {
    exists|m: T| #[trigger] times_is(ops, a, b, m) && plus_is(ops, p, m, r)
}

/// The product that the device is checked against: column `col` of the result
/// holds the sums for every row.
pub fn gemm_reference<T: Copy, A: Arith<T>>(ops: &A, s: &GemmShape, w: &[T], x: &[T]) -> (y: Vec<T>)
    requires
        w@.len() == s.ne1 * s.ne0,
        x@.len() == s.ncols * s.ne0,
        s.ncols * s.ne1 <= usize::MAX,
    ensures
        y@.len() == s.ncols * s.ne1,
        forall|col: int, row: int|
            0 <= col < s.ncols && 0 <= row < s.ne1 ==> dot_is(
                ops,
                w@,
                x@,
                s.ne0 as int,
                row,
                col,
                s.ne0 as nat,
                #[trigger] y@[col * s.ne1 + row],
            ),
{
    let mut y: Vec<T> = Vec::new();
    let n = s.ncols * s.ne1;
    while y.len() < n
        invariant
            n == s.ncols * s.ne1,
            w@.len() == s.ne1 * s.ne0,
            x@.len() == s.ncols * s.ne0,
            y@.len() <= n,
            forall|i: int|
                0 <= i < y@.len() ==> dot_is(
                    ops,
                    w@,
                    x@,
                    s.ne0 as int,
                    i % (s.ne1 as int),
                    i / (s.ne1 as int),
                    s.ne0 as nat,
                    #[trigger] y@[i],
                ),
        decreases n - y@.len(),
    {
        let i = y.len();
        proof {
            let (i, ne1, ncols) = (i as int, s.ne1 as int, s.ncols as int);
            assert(0 < ne1) by (nonlinear_arith)
                requires
                    0 <= i < ncols * ne1,
                    0 <= ne1,
                    0 <= ncols,
            ;
            vstd::arithmetic::div_mod::lemma_fundamental_div_mod(i, ne1);
            assert(0 <= i / ne1 < ncols) by (nonlinear_arith)
                requires
                    0 <= i < ncols * ne1,
                    0 < ne1,
            ;
        }
        let (row, col) = (i % s.ne1, i / s.ne1);
        let mut acc = ops.zero();
        let mut k: usize = 0;
        assert(zero_is(ops, acc));
        while k < s.ne0
            invariant
                w@.len() == s.ne1 * s.ne0,
                x@.len() == s.ncols * s.ne0,
                row < s.ne1,
                col < s.ncols,
                k <= s.ne0,
                dot_is(ops, w@, x@, s.ne0 as int, row as int, col as int, k as nat, acc),
            decreases s.ne0 - k,
        {
            proof {
                let (row, col, k, ne0) = (row as int, col as int, k as int, s.ne0 as int);
                assert(0 <= row * ne0 && row * ne0 + k < s.ne1 * ne0) by (nonlinear_arith)
                    requires
                        0 <= row < s.ne1,
                        0 <= k < ne0,
                ;
                assert(0 <= col * ne0 && col * ne0 + k < s.ncols * ne0) by (nonlinear_arith)
                    requires
                        0 <= col < s.ncols,
                        0 <= k < ne0,
                ;
                assert(w.len() == w@.len() && x.len() == x@.len());
            }
            let m = ops.times(w[row * s.ne0 + k], x[col * s.ne0 + k]);
            let next = ops.plus(acc, m);
            proof {
                let j = (k + 1) as nat;
                let (a, b) = (w@[row * s.ne0 + k], x@[col * s.ne0 + k]);
                assert(times_is(ops, a, b, m) && plus_is(ops, acc, m, next));
                assert(w@[row * s.ne0 + j - 1] == a && x@[col * s.ne0 + j - 1] == b);
                assert(product_added(
                    ops,
                    w@[row * s.ne0 + j - 1],
                    x@[col * s.ne0 + j - 1],
                    acc,
                    next,
                ));
                assert(dot_is(
                    ops,
                    w@,
                    x@,
                    s.ne0 as int,
                    row as int,
                    col as int,
                    (j - 1) as nat,
                    acc,
                ));
            }
            acc = next;
            k += 1;
        }
        y.push(acc);
    }
    proof {
        assert forall|col: int, row: int| 0 <= col < s.ncols && 0 <= row < s.ne1 implies dot_is(
            ops,
            w@,
            x@,
            s.ne0 as int,
            row,
            col,
            s.ne0 as nat,
            #[trigger] y@[col * s.ne1 + row],
        ) by {
            lemma_quot_rem(col, s.ne1 as int, row);
            assert(0 <= col * s.ne1 + row < s.ncols * s.ne1) by (nonlinear_arith)
                requires
                    0 <= col < s.ncols,
                    0 <= row < s.ne1,
            ;
        }
    }
    y
}

} // verus!
