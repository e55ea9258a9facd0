//! Comparisons and measurements, spelled out.

use vstd::prelude::*;

use crate::arith::plus_is;
use crate::arith::times_is;
use crate::arith::Arith;
use crate::bench::dot_is;
use crate::bench::fused_shapes;
use crate::bench::gemm_reference;
use crate::bench::large_gemms;
use crate::bench::network_gemms;
use crate::bench::pattern;
use crate::bench::product_added;
use crate::bench::BenchShape;
use crate::bench::GemmShape;
use crate::dispatch::covers_elements;
use crate::dispatch::covers_plane;
use crate::dispatch::direct_launch;
use crate::dispatch::lemma_tabled_launch;
use crate::dispatch::winograd_launch;
use crate::launch::tabled_call;
use crate::launch::KernelCall;
use crate::selftest::add_scaled_call;
use crate::selftest::conv_cases;
use crate::selftest::copy_call;
use crate::selftest::lrelu_call;
use crate::selftest::noise;
use crate::selftest::noise_state;
use crate::selftest::unshuffle_call;
use crate::selftest::upsample_call;
use crate::selftest::wider_is;
use crate::selftest::worst_gap;
use crate::selftest::worst_is;
use crate::selftest::ConvCase;
use crate::selftest::Gaps;
use crate::shape::lemma_ceil;
use crate::shape::Arg;
use crate::shape::ConvShape;
use crate::shape::Operands;

verus! {

/// The noise is a linear congruence modulo two to the 32nd: the states are returned, and
/// a number is the upper 24 bits of a state.
pub proof fn noise_is_a_congruence(n: usize, seed: u32, r: Vec<u32>) -> (s: Seq<int>)
    requires
        call_ensures(noise, (n, seed), r),
    ensures
        r@.len() == n,
        s.len() == n + 1,
        s[0] == (2654435761 * seed + 1) % 0x1_0000_0000,
        forall|i: int|
            0 <= i < n ==> #[trigger] s[i + 1] == (1664525 * s[i] + 1013904223) % 0x1_0000_0000,
        forall|i: int| 0 <= i < n ==> #[trigger] r@[i] == s[i + 1] / 256,
{
    let s = Seq::new((n + 1) as nat, |i: int| noise_state(seed, i as nat) as int);
    assert forall|i: int| 0 <= i < n implies #[trigger] s[i + 1] == (1664525 * s[i] + 1013904223)
        % 0x1_0000_0000 by {
        let m = (i + 1) as nat;
        assert((m - 1) as nat == i as nat);
        assert(s[i + 1] == noise_state(seed, m));
    }
    s
}

/// The comparisons of the convolution.
pub proof fn comparisons_are_these(r: Vec<ConvCase>)
    requires
        call_ensures(conv_cases, (), r),
    ensures
        r@ == seq![
            ConvCase { c_in: 3, c_out: 64, act: false, variant: 0 },
            ConvCase { c_in: 64, c_out: 32, act: true, variant: 0 },
            ConvCase { c_in: 96, c_out: 32, act: true, variant: 0 },
            ConvCase { c_in: 192, c_out: 64, act: false, variant: 0 },
            ConvCase { c_in: 64, c_out: 64, act: true, variant: 0 },
            ConvCase { c_in: 160, c_out: 32, act: true, variant: 0 },
            ConvCase { c_in: 3, c_out: 64, act: false, variant: 14 },
            ConvCase { c_in: 64, c_out: 32, act: true, variant: 14 },
            ConvCase { c_in: 96, c_out: 32, act: true, variant: 14 },
            ConvCase { c_in: 192, c_out: 64, act: false, variant: 14 },
            ConvCase { c_in: 64, c_out: 64, act: true, variant: 14 },
            ConvCase { c_in: 160, c_out: 32, act: true, variant: 14 },
            ConvCase { c_in: 128, c_out: 32, act: true, variant: 14 },
            ConvCase { c_in: 32, c_out: 128, act: true, variant: 14 },
            ConvCase { c_in: 9, c_out: 8, act: false, variant: 14 },
            ConvCase { c_in: 5, c_out: 4, act: false, variant: 14 },
            ConvCase { c_in: 5, c_out: 4, act: false, variant: 0 },
        ],
{
}

/// A comparison's noise is seeded by its channels.
pub proof fn seeds_come_from_the_channels(c: &ConvCase, r: (u32, u32, u32))
    requires
        call_ensures(ConvCase::seeds, (c,), r),
    ensures
        r.0 == 7 * c.c_in + c.c_out,
        r.1 == 13 * c.c_out + 5,
        r.2 == c.c_out + 99,
{
}

/// A comparison is launched on 37 by 29 pixels, directly as variant 0 and else by the
/// Winograd row, with a chunk of 16 asked for; its buffer of parameters begins with the
/// biases.
pub proof fn comparisons_are_launched_so(
    c: &ConvCase,
    src: u64,
    params: u64,
    dst: u64,
    r: KernelCall,
)
    requires
        call_ensures(ConvCase::call, (c, src, params, dst), r),
        params + 4 * c.c_out <= u64::MAX,
    ensures
        ({
            let o = Operands {
                src,
                weights: (params + 4 * c.c_out) as u64,
                bias: params,
                dst,
                c_in: c.c_in,
                c_out: c.c_out,
                h: 29,
                w: 37,
                act: c.act,
            };
            if c.variant == 0 {
                direct_launch(o, 16, r)
            } else {
                winograd_launch(o, 16, r)
            }
        }),
{
    let o = c.operands(src, params, dst);
    let s = choose|s: ConvShape|
        {
            &&& if c.variant == 0 {
                s.direct_row()
            } else {
                s.winograd_row()
            }
            &&& #[trigger] tabled_call(&s, o, 16, &r)
        };
    lemma_tabled_launch(&s, o, 16, r);
}

/// The comparisons of the pixel kernels are launched over what they write.
pub proof fn pixel_kernels_are_launched_so(
    src: u64,
    dst: u64,
    c: usize,
    h: usize,
    w: usize,
    down: KernelCall,
    up: KernelCall,
)
    requires
        call_ensures(unshuffle_call, (src, dst, c, h, w), down),
        call_ensures(upsample_call, (src, dst, c, h, w), up),
        h * 2 <= 0x7fff_ffff,
        w * 2 <= 0x7fff_ffff,
    ensures
        down.name@ == "lg_pixel_unshuffle2"@,
        covers_plane(down.launch, w as int / 2, h as int / 2),
        up.name@ == "lg_upsample2x_nearest"@,
        covers_plane(up.launch, 2 * w, 2 * h),
        down.args@ == up.args@,
        down.args@.len() == 5,
        down.args@[0] == Arg::Ptr(src),
        down.args@[1] == Arg::Ptr(dst),
        down.args@[2] == Arg::I32(c as i32),
        down.args@[3] == Arg::I32(h as i32),
        down.args@[4] == Arg::I32(w as i32),
{
    lemma_ceil(w as int / 2, 32);
    lemma_ceil(h as int / 2, 8);
    lemma_ceil(w * 2, 32);
    lemma_ceil(h * 2, 8);
}

/// The comparisons of the elementwise kernels are launched over their elements; the
/// factor, and the slope, is one fifth.
pub proof fn element_kernels_are_launched_so(
    a: u64,
    b: u64,
    dst: u64,
    n: usize,
    sum: KernelCall,
    rectified: KernelCall,
    copied: KernelCall,
)
    requires
        call_ensures(add_scaled_call, (a, b, dst, n), sum),
        call_ensures(lrelu_call, (a, dst, n), rectified),
        call_ensures(copy_call, (a, dst, n), copied),
        n <= 256 * 0xffff_ffff,
    ensures
        covers_elements(sum.launch, n as int),
        covers_elements(rectified.launch, n as int),
        covers_elements(copied.launch, n as int),
        sum.name@ == "lg_add_scaled"@,
        rectified.name@ == "lg_lrelu"@,
        copied.name@ == "lg_copy"@,
        sum.args@.len() == 5,
        sum.args@[0] == Arg::Ptr(a) && sum.args@[1] == Arg::Ptr(b) && sum.args@[2] == Arg::Ptr(dst),
        sum.args@[3] == Arg::I64(n as i64) && sum.args@[4] == Arg::F32(0x3E4C_CCCD),
        rectified.args@.len() == 4,
        rectified.args@[0] == Arg::Ptr(a) && rectified.args@[1] == Arg::Ptr(dst),
        rectified.args@[2] == Arg::F32(0x3E4C_CCCD) && rectified.args@[3] == Arg::I64(n as i64),
        copied.args@.len() == 3,
        copied.args@[0] == Arg::Ptr(a) && copied.args@[1] == Arg::Ptr(dst),
        copied.args@[2] == Arg::I64(n as i64),
{
    lemma_ceil(n as int, 256);
}

proof fn lemma_gaps<T, G: Gaps<T>>(ops: &G, got: Seq<T>, want: Seq<T>, n: nat, r: T) -> (s: (
    Seq<T>,
    Seq<T>,
))
    requires
        worst_is(ops, got, want, n, r),
    ensures
        s.0.len() == n,
        s.1.len() == n + 1,
        call_ensures(<G as Gaps<T>>::none, (ops,), s.1[0]),
        s.1[n as int] == r,
        forall|i: int|
            0 <= i < n ==> {
                &&& call_ensures(<G as Gaps<T>>::gap, (ops, got[i], want[i]), #[trigger] s.0[i])
                &&& call_ensures(<G as Gaps<T>>::larger, (ops, s.1[i], s.0[i]), s.1[i + 1])
            },
    decreases n,
{
    if n == 0 {
        (Seq::empty(), seq![r])
    } else {
        let m = choose|m: T|
            {
                &&& worst_is(ops, got, want, (n - 1) as nat, m)
                &&& #[trigger] wider_is(ops, m, got[n - 1], want[n - 1], r)
            };
        let g = choose|g: T|
            #[trigger] call_ensures(<G as Gaps<T>>::gap, (ops, got[n - 1], want[n - 1]), g)
                && call_ensures(<G as Gaps<T>>::larger, (ops, m, g), r);
        let p = lemma_gaps(ops, got, want, (n - 1) as nat, m);
        let s = (p.0.push(g), p.1.push(r));
        assert forall|i: int| 0 <= i < n implies {
            &&& call_ensures(<G as Gaps<T>>::gap, (ops, got[i], want[i]), #[trigger] s.0[i])
            &&& call_ensures(<G as Gaps<T>>::larger, (ops, s.1[i], s.0[i]), s.1[i + 1])
        } by {
            if i < n - 1 {
                assert(s.0[i] == p.0[i] && s.1[i] == p.1[i] && s.1[i + 1] == p.1[i + 1]);
            }
        }
        s
    }
}

/// The largest gap is taken over all values that both have, from the first on: the gaps
/// are returned, and the largest before each and behind the last.
pub proof fn worst_gap_is_over_all_values<T: Copy, G: Gaps<T>>(
    ops: &G,
    got: &[T],
    want: &[T],
    r: T,
) -> (s: (Seq<T>, Seq<T>))
    requires
        call_ensures(worst_gap::<T, G>, (ops, got, want), r),
    ensures
        ({
            let n = if got@.len() < want@.len() {
                got@.len() as int
            } else {
                want@.len() as int
            };
            &&& s.0.len() == n
            &&& s.1.len() == n + 1
            &&& call_ensures(<G as Gaps<T>>::none, (ops,), s.1[0])
            &&& forall|i: int|
                0 <= i < n ==> {
                    &&& call_ensures(
                        <G as Gaps<T>>::gap,
                        (ops, got@[i], want@[i]),
                        #[trigger] s.0[i],
                    )
                    &&& call_ensures(<G as Gaps<T>>::larger, (ops, s.1[i], s.0[i]), s.1[i + 1])
                }
            &&& s.1[n] == r
        }),
{
    let n = if got@.len() <= want@.len() {
        got@.len()
    } else {
        want@.len()
    };
    lemma_gaps(ops, got@, want@, n, r)
}

/// The shapes on which the convolution is timed.
pub proof fn timed_shapes_are_these(r: Vec<BenchShape>)
    requires
        call_ensures(fused_shapes, (), r),
    ensures
        r@ == seq![
            BenchShape { c_in: 64, c_out: 64, h: 256, w: 256 },
            BenchShape { c_in: 3, c_out: 64, h: 256, w: 256 },
            BenchShape { c_in: 64, c_out: 64, h: 1024, w: 1024 },
            BenchShape { c_in: 64, c_out: 16, h: 256, w: 256 },
            BenchShape { c_in: 16, c_out: 64, h: 256, w: 256 },
            BenchShape { c_in: 64, c_out: 32, h: 256, w: 256 },
            BenchShape { c_in: 32, c_out: 64, h: 256, w: 256 },
            BenchShape { c_in: 64, c_out: 64, h: 16, w: 16 },
            BenchShape { c_in: 64, c_out: 32, h: 16, w: 16 },
            BenchShape { c_in: 16, c_out: 16, h: 16, w: 16 },
            BenchShape { c_in: 64, c_out: 64, h: 64, w: 64 },
        ],
{
}

/// A convolution has nine multiplications for each pair of channels and each pixel.
pub proof fn products_of_a_convolution(s: &BenchShape, r: usize)
    requires
        call_ensures(BenchShape::products, (s,), r),
    ensures
        r == 9 * s.c_in * s.c_out * s.h * s.w,
{
    let (a, b, h, w) = (s.c_in as int, s.c_out as int, s.h as int, s.w as int);
    assert(a * b * 9 * (h * w) == 9 * a * b * h * w) by (nonlinear_arith);
}

/// A timed convolution is launched by the row that was named, the Winograd row where none
/// was, with a chunk of 16 asked for and no activation; its buffer of parameters begins
/// with the weights. A name that the table does not have is refused.
pub proof fn timed_convolutions_are_launched_so(
    s: &BenchShape,
    variant: &Option<String>,
    src: u64,
    params: u64,
    dst: u64,
    r: Result<KernelCall, String>,
)
    requires
        call_ensures(BenchShape::call, (s, variant, src, params, dst), r),
        s.h <= 0x7fff_ffff,
        s.w <= 0x7fff_ffff,
        params + 36 * (s.c_out * s.c_in) <= u64::MAX,
    ensures
        ({
            let o = Operands {
                src,
                weights: params,
                bias: (params + 36 * (s.c_out * s.c_in)) as u64,
                dst,
                c_in: s.c_in,
                c_out: s.c_out,
                h: s.h,
                w: s.w,
                act: false,
            };
            let name = match *variant {
                Some(v) => v@,
                None => "wg"@,
            };
            if name == "wg"@ {
                r matches Ok(call) && winograd_launch(o, 16, call)
            } else if name == "direct"@ {
                r matches Ok(call) && direct_launch(o, 16, call)
            } else {
                r matches Err(t) && t@ == "unknown LA_CONV `"@ + name
                    + "` (see ConvShape::by_name: \"wg\" or \"direct\")"@
            }
        }),
{
    reveal_strlit("wg");
    reveal_strlit("direct");
    assert("wg"@.len() != "direct"@.len());
    assert(36 * (s.c_out * s.c_in) == s.c_out * s.c_in * 9 * 4) by (nonlinear_arith);
    if let Ok(call) = r {
        let o = s.operands(src, params, dst);
        let row = choose|row: ConvShape|
            {
                &&& crate::bench::chosen_row(*variant, row)
                &&& #[trigger] tabled_call(&row, o, 16, &call)
            };
        lemma_tabled_launch(&row, o, 16, call);
    }
}

/// A matrix product is launched in blocks of 256 threads that cover 64 rows and 32
/// columns each.
pub proof fn products_are_launched_so(s: &GemmShape, w: u64, x: u64, y: u64, r: KernelCall)
    requires
        call_ensures(GemmShape::call, (s, w, x, y), r),
        s.ne1 <= u32::MAX,
        s.ncols <= u32::MAX,
    ensures
        r.name@ == "lg_f32_gemm_tiled"@,
        r.launch.block == (256u32, 1u32, 1u32),
        r.launch.shared == 0,
        64 * (r.launch.grid.0 - 1) < s.ne1 <= 64 * r.launch.grid.0,
        32 * (r.launch.grid.1 - 1) < s.ncols <= 32 * r.launch.grid.1,
        r.launch.grid.2 == 1,
        r.args@.len() == 6,
        r.args@[0] == Arg::Ptr(w) && r.args@[1] == Arg::Ptr(x) && r.args@[2] == Arg::Ptr(y),
        r.args@[3] == Arg::I32(s.ne0 as i32),
        r.args@[4] == Arg::I32(s.ne1 as i32),
        r.args@[5] == Arg::I32(s.ncols as i32),
{
    lemma_ceil(s.ne1 as int, 64);
    lemma_ceil(s.ncols as int, 32);
}

/// The matrix products that are timed.
pub proof fn timed_products_are_these(small: Vec<GemmShape>, large: Vec<GemmShape>)
    requires
        call_ensures(network_gemms, (), small),
        call_ensures(large_gemms, (), large),
    ensures
        small@ == seq![
            GemmShape { ne0: 64, ne1: 64, ncols: 4096 },
            GemmShape { ne0: 64, ne1: 64, ncols: 16384 },
            GemmShape { ne0: 192, ne1: 64, ncols: 4096 },
        ],
        large@ == seq![
            GemmShape { ne0: 64, ne1: 64, ncols: 65536 },
            GemmShape { ne0: 64, ne1: 64, ncols: 262144 },
            GemmShape { ne0: 192, ne1: 64, ncols: 262144 },
            GemmShape { ne0: 64, ne1: 128, ncols: 262144 },
        ],
{
}

/// The pattern steps through the remainders.
pub proof fn patterns_are_remainders(n: usize, step: usize, modulus: usize, r: Vec<usize>, i: int)
    requires
        call_ensures(pattern, (n, step, modulus), r),
        0 < modulus,
        0 <= i < n,
    ensures
        r@.len() == n,
        r@[i] < modulus,
        exists|q: int| #[trigger] (modulus * q) + r@[i] == step * i,
{
    let (a, m) = (i * step, modulus as int);
    vstd::arithmetic::div_mod::lemma_fundamental_div_mod(a, m);
    assert(step * i == i * step) by (nonlinear_arith);
    assert(modulus * (a / m) + r@[i] == step * i);
}

proof fn lemma_dot<T, A: Arith<T>>(
    ops: &A,
    w: Seq<T>,
    x: Seq<T>,
    ne0: int,
    row: int,
    col: int,
    n: nat,
    r: T,
) -> (s: (Seq<T>, Seq<T>))
    requires
        dot_is(ops, w, x, ne0, row, col, n, r),
    ensures
        s.0.len() == n,
        s.1.len() == n + 1,
        call_ensures(<A as Arith<T>>::zero, (ops,), s.1[0]),
        s.1[n as int] == r,
        forall|i: int|
            0 <= i < n ==> {
                &&& call_ensures(
                    <A as Arith<T>>::times,
                    (ops, w[row * ne0 + i], x[col * ne0 + i]),
                    #[trigger] s.0[i],
                )
                &&& call_ensures(<A as Arith<T>>::plus, (ops, s.1[i], s.0[i]), s.1[i + 1])
            },
    decreases n,
{
    if n == 0 {
        (Seq::empty(), seq![r])
    } else {
        let (a, b) = (w[row * ne0 + n - 1], x[col * ne0 + n - 1]);
        let p = choose|p: T|
            {
                &&& dot_is(ops, w, x, ne0, row, col, (n - 1) as nat, p)
                &&& #[trigger] product_added(ops, a, b, p, r)
            };
        let m = choose|m: T| #[trigger] times_is(ops, a, b, m) && plus_is(ops, p, m, r);
        let f = lemma_dot(ops, w, x, ne0, row, col, (n - 1) as nat, p);
        let s = (f.0.push(m), f.1.push(r));
        assert forall|i: int| 0 <= i < n implies {
            &&& call_ensures(
                <A as Arith<T>>::times,
                (ops, w[row * ne0 + i], x[col * ne0 + i]),
                #[trigger] s.0[i],
            )
            &&& call_ensures(<A as Arith<T>>::plus, (ops, s.1[i], s.0[i]), s.1[i + 1])
        } by {
            if i < n - 1 {
                assert(s.0[i] == f.0[i] && s.1[i] == f.1[i] && s.1[i + 1] == f.1[i + 1]);
            } else {
                assert(row * ne0 + n - 1 == row * ne0 + i && col * ne0 + n - 1 == col * ne0 + i);
            }
        }
        s
    }
}

/// An element of a matrix product is the sum of the products of a row and a column, in
/// order, from zero on: the products and the sums are returned. Both operands stand row by
/// row of the common side, and the result column by column.
pub proof fn product_is_rows_by_columns<T: Copy, A: Arith<T>>(
    ops: &A,
    s: &GemmShape,
    w: &[T],
    x: &[T],
    y: Vec<T>,
    row: int,
    col: int,
) -> (r: (Seq<T>, Seq<T>))
    requires
        call_ensures(gemm_reference::<T, A>, (ops, s, w, x), y),
        0 <= row < s.ne1,
        0 <= col < s.ncols,
    ensures
        y@.len() == s.ncols * s.ne1,
        r.0.len() == s.ne0,
        r.1.len() == s.ne0 + 1,
        call_ensures(<A as Arith<T>>::zero, (ops,), r.1[0]),
        forall|i: int|
            0 <= i < s.ne0 ==> {
                &&& call_ensures(
                    <A as Arith<T>>::times,
                    (ops, w@[row * s.ne0 + i], x@[col * s.ne0 + i]),
                    #[trigger] r.0[i],
                )
                &&& call_ensures(<A as Arith<T>>::plus, (ops, r.1[i], r.0[i]), r.1[i + 1])
            },
        y@[col * s.ne1 + row] == r.1[s.ne0 as int],
{
    let v = y@[col * s.ne1 + row];
    lemma_dot(ops, w@, x@, s.ne0 as int, row, col, s.ne0 as nat, v)
}

} // verus!
