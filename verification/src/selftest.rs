//! The comparison of every kernel with its host twin, on reproducible noise.

use vstd::prelude::*;

use crate::device::is_kernel;
use crate::device::tabled_kernels_are_resolved;
use crate::launch::element_launch;
use crate::launch::over_elements;
use crate::launch::over_plane;
use crate::launch::plane_launch;
use crate::launch::tabled;
use crate::launch::tabled_call;
use crate::launch::KernelCall;
use crate::shape::Arg;
use crate::shape::ConvShape;
use crate::shape::Operands;
use crate::shape::FIFTH_BITS;
use crate::shape::SMEM_CAP;

verus! {

/// The generator's state before the first number.
pub open spec fn noise_start(seed: u32) -> u32 {
    ((seed * 2654435761 + 1) % 0x1_0000_0000) as u32
}

/// The generator's next state.
pub open spec fn noise_next(s: u32) -> u32 {
    ((s * 1664525 + 1013904223) % 0x1_0000_0000) as u32
}

/// The generator's state after `n` steps.
pub open spec fn noise_state(seed: u32, n: nat) -> u32
    decreases n,
{
    if n == 0 {
        noise_start(seed)
    } else {
        noise_next(noise_state(seed, (n - 1) as nat))
    }
}

/// The first `n` numbers of the generator: the upper 24 bits of each state.
pub fn noise(n: usize, seed: u32) -> (r: Vec<u32>)
    ensures
        r@.len() == n,
        forall|i: int|
            0 <= i < n ==> #[trigger] r@[i] == noise_state(seed, (i + 1) as nat) / 256,
{
    let mut s: u32 = ((seed as u64 * 2654435761 + 1) % 0x1_0000_0000) as u32;
    let mut r: Vec<u32> = Vec::new();
    while r.len() < n
        invariant
            r@.len() <= n,
            s == noise_state(seed, r@.len()),
            forall|i: int|
                0 <= i < r@.len() ==> #[trigger] r@[i] == noise_state(seed, (i + 1) as nat) / 256,
        decreases n - r@.len(),
    {
        let ghost k = r@.len();
        s = ((s as u64 * 1664525 + 1013904223) % 0x1_0000_0000) as u32;
        r.push(s / 256);
        proof {
            let m = (k + 1) as nat;
            assert((m - 1) as nat == k);
            assert(noise_state(seed, m) == noise_next(noise_state(seed, k)));
        }
    }
    r
}

/// One comparison of the convolution: its channels, its activation, and the
/// table's row by its number.
#[derive(Clone, Copy, PartialEq, Eq, Structural, Debug)]
pub struct ConvCase {
    pub c_in: usize,
    pub c_out: usize,
    pub act: bool,
    pub variant: usize,
}

/// The image that the convolutions are compared on: a multiple of no tile.
pub const CASE_W: usize = 37;

pub const CASE_H: usize = 29;

/// A comparison.
pub open spec fn case(c_in: usize, c_out: usize, act: bool, variant: usize) -> ConvCase {
    ConvCase { c_in, c_out, act, variant }
}

/// The comparisons of the convolution: the direct row, the Winograd row on the
/// shapes that the network launches, and small shapes with a single chunk.
pub open spec fn all_cases() -> Seq<ConvCase> {
    seq![
        case(3, 64, false, 0),
        case(64, 32, true, 0),
        case(96, 32, true, 0),
        case(192, 64, false, 0),
        case(64, 64, true, 0),
        case(160, 32, true, 0),
        case(3, 64, false, 14),
        case(64, 32, true, 14),
        case(96, 32, true, 14),
        case(192, 64, false, 14),
        case(64, 64, true, 14),
        case(160, 32, true, 14),
        case(128, 32, true, 14),
        case(32, 128, true, 14),
        case(9, 8, false, 14),
        case(5, 4, false, 14),
        case(5, 4, false, 0),
    ]
}

/// The comparisons of the convolution.
pub fn conv_cases() -> (r: Vec<ConvCase>)
    ensures
        r@ == all_cases(),
{
    let r = vec![
        ConvCase { c_in: 3, c_out: 64, act: false, variant: 0 },
        ConvCase { c_in: 64, c_out: 32, act: true, variant: 0 },
        ConvCase { c_in: 96, c_out: 32, act: true, variant: 0 },
        ConvCase { c_in: 192, c_out: 64, act: false, variant: 0 },
        ConvCase { c_in: 64, c_out: 64, act: true, variant: 0 },
        ConvCase { c_in: 160, c_out: 32, act: true, variant: 0 },
        ConvCase { c_in: 3, c_out: 64, act: false, variant: 14 },
        ConvCase { c_in: 64, c_out: 32, act: true, variant: 14 },
        ConvCase { c_in: 96, c_out: 32, act: true, variant: 14 },
        ConvCase { c_in: 192, c_out: 64, act: false, variant: 14 },
        ConvCase { c_in: 64, c_out: 64, act: true, variant: 14 },
        ConvCase { c_in: 160, c_out: 32, act: true, variant: 14 },
        ConvCase { c_in: 128, c_out: 32, act: true, variant: 14 },
        ConvCase { c_in: 32, c_out: 128, act: true, variant: 14 },
        ConvCase { c_in: 9, c_out: 8, act: false, variant: 14 },
        ConvCase { c_in: 5, c_out: 4, act: false, variant: 14 },
        ConvCase { c_in: 5, c_out: 4, act: false, variant: 0 },
    ];
    assert(r@ =~= all_cases());
    r
}

impl ConvCase {
    /// The seeds of the image, the weights and the biases.
    pub fn seeds(&self) -> (r: (u32, u32, u32))
        requires
            self.c_in * 7 + self.c_out <= u32::MAX,
            self.c_out * 13 + 5 <= u32::MAX,
            self.c_out + 99 <= u32::MAX,
        ensures
            r.0 == self.c_in * 7 + self.c_out,
            r.1 == self.c_out * 13 + 5,
            r.2 == self.c_out + 99,
    {
        let (ci, co) = (self.c_in as u32, self.c_out as u32);
        (ci * 7 + co, co * 13 + 5, co + 99)
    }

    /// The operands of the launch. The parameters are one buffer at `params`, the
    /// biases before the weights.
    pub open spec fn operands(&self, src: u64, params: u64, dst: u64) -> Operands {
        Operands {
            src,
            weights: (params + 4 * self.c_out) as u64,
            bias: params,
            dst,
            c_in: self.c_in,
            c_out: self.c_out,
            h: CASE_H,
            w: CASE_W,
            act: self.act,
        }
    }

    /// The launch of a comparison, from the table that the network is launched
    /// from.
    pub fn call(&self, src: u64, params: u64, dst: u64) -> (r: KernelCall)
        requires
            4 * self.c_out <= usize::MAX,
            params + 4 * self.c_out <= u64::MAX,
        ensures
            exists|s: ConvShape|
                {
                    &&& if self.variant == 0 {
                        s.direct_row()
                    } else {
                        s.winograd_row()
                    }
                    &&& #[trigger] tabled_call(&s, self.operands(src, params, dst), 16, &r)
                },
            r.launch.shared <= SMEM_CAP,
            is_kernel(r.name@),
    {
        let s = ConvShape::by_index(self.variant);
        let o = Operands {
            src,
            weights: params + (self.c_out * 4) as u64,
            bias: params,
            dst,
            c_in: self.c_in,
            c_out: self.c_out,
            h: CASE_H,
            w: CASE_W,
            act: self.act,
        };
        let r = tabled(&s, &o, 16);
        proof {
            assert(tabled_call(&s, self.operands(src, params, dst), 16, &r));
            tabled_kernels_are_resolved(&s, self.operands(src, params, dst), 16, &r);
        }
        r
    }
}

/// The launch of the unshuffling comparison: `c` channels of `h` by `w` values.
pub fn unshuffle_call(src: u64, dst: u64, c: usize, h: usize, w: usize) -> (r: KernelCall)
    requires
        h <= 0x7fff_ffff,
        w <= 0x7fff_ffff,
    ensures
        r.is(
            "lg_pixel_unshuffle2"@,
            plane_launch(w as int / 2, h as int / 2),
            seq![
                Arg::Ptr(src),
                Arg::Ptr(dst),
                Arg::I32(c as i32),
                Arg::I32(h as i32),
                Arg::I32(w as i32),
            ],
        ),
        is_kernel(r.name@),
{
    let args = vec![
        Arg::Ptr(src),
        Arg::Ptr(dst),
        Arg::I32(c as i32),
        Arg::I32(h as i32),
        Arg::I32(w as i32),
    ];
    assert(args@ =~= seq![
        Arg::Ptr(src),
        Arg::Ptr(dst),
        Arg::I32(c as i32),
        Arg::I32(h as i32),
        Arg::I32(w as i32),
    ]);
    KernelCall { name: "lg_pixel_unshuffle2", launch: over_plane(w / 2, h / 2), args }
}

/// The launch of the upsampling comparison: `c` channels of `h` by `w` values.
pub fn upsample_call(src: u64, dst: u64, c: usize, h: usize, w: usize) -> (r: KernelCall)
    requires
        h * 2 <= 0x7fff_ffff,
        w * 2 <= 0x7fff_ffff,
    ensures
        r.is(
            "lg_upsample2x_nearest"@,
            plane_launch(w * 2, h * 2),
            seq![
                Arg::Ptr(src),
                Arg::Ptr(dst),
                Arg::I32(c as i32),
                Arg::I32(h as i32),
                Arg::I32(w as i32),
            ],
        ),
        is_kernel(r.name@),
{
    let args = vec![
        Arg::Ptr(src),
        Arg::Ptr(dst),
        Arg::I32(c as i32),
        Arg::I32(h as i32),
        Arg::I32(w as i32),
    ];
    assert(args@ =~= seq![
        Arg::Ptr(src),
        Arg::Ptr(dst),
        Arg::I32(c as i32),
        Arg::I32(h as i32),
        Arg::I32(w as i32),
    ]);
    KernelCall { name: "lg_upsample2x_nearest", launch: over_plane(w * 2, h * 2), args }
}

/// The launch of the comparison of the scaled sum, with one fifth.
pub fn add_scaled_call(a: u64, b: u64, dst: u64, n: usize) -> (r: KernelCall)
    requires
        n + 255 <= u64::MAX,
    ensures
        r.is(
            "lg_add_scaled"@,
            element_launch(n as int),
            seq![
                Arg::Ptr(a),
                Arg::Ptr(b),
                Arg::Ptr(dst),
                Arg::I64(n as i64),
                Arg::F32(FIFTH_BITS),
            ],
        ),
        is_kernel(r.name@),
{
    let args = vec![
        Arg::Ptr(a),
        Arg::Ptr(b),
        Arg::Ptr(dst),
        Arg::I64(n as i64),
        Arg::F32(FIFTH_BITS),
    ];
    assert(args@ =~= seq![
        Arg::Ptr(a),
        Arg::Ptr(b),
        Arg::Ptr(dst),
        Arg::I64(n as i64),
        Arg::F32(FIFTH_BITS),
    ]);
    KernelCall { name: "lg_add_scaled", launch: over_elements(n), args }
}

/// The launch of the comparison of the rectifier, with slope one fifth.
pub fn lrelu_call(src: u64, dst: u64, n: usize) -> (r: KernelCall)
    requires
        n + 255 <= u64::MAX,
    ensures
        r.is(
            "lg_lrelu"@,
            element_launch(n as int),
            seq![Arg::Ptr(src), Arg::Ptr(dst), Arg::F32(FIFTH_BITS), Arg::I64(n as i64)],
        ),
        is_kernel(r.name@),
{
    let args = vec![Arg::Ptr(src), Arg::Ptr(dst), Arg::F32(FIFTH_BITS), Arg::I64(n as i64)];
    assert(args@ =~= seq![
        Arg::Ptr(src),
        Arg::Ptr(dst),
        Arg::F32(FIFTH_BITS),
        Arg::I64(n as i64),
    ]);
    KernelCall { name: "lg_lrelu", launch: over_elements(n), args }
}

/// The launch of the comparison of the copy.
pub fn copy_call(src: u64, dst: u64, n: usize) -> (r: KernelCall)
    requires
        n + 255 <= u64::MAX,
    ensures
        r.is(
            "lg_copy"@,
            element_launch(n as int),
            seq![Arg::Ptr(src), Arg::Ptr(dst), Arg::I64(n as i64)],
        ),
        is_kernel(r.name@),
{
    let args = vec![Arg::Ptr(src), Arg::Ptr(dst), Arg::I64(n as i64)];
    assert(args@ =~= seq![Arg::Ptr(src), Arg::Ptr(dst), Arg::I64(n as i64)]);
    KernelCall { name: "lg_copy", launch: over_elements(n), args }
}

/// How far values lie apart.
pub trait Gaps<T> {
    /// No gap.
    fn none(&self) -> T;

    /// The gap between two values.
    fn gap(&self, a: T, b: T) -> T;

    /// The larger of two gaps.
    fn larger(&self, m: T, g: T) -> T;
}

/// `r` is no gap.
pub open spec fn none_is<T, G: Gaps<T>>(ops: &G, r: T) -> bool {
    call_ensures(<G as Gaps<T>>::none, (ops,), r)
}

/// `r` is the larger of `m` and the gap between `a` and `b`.
pub open spec fn wider_is<T, G: Gaps<T>>(ops: &G, m: T, a: T, b: T, r: T) -> bool {
    exists|g: T|
        #[trigger] call_ensures(<G as Gaps<T>>::gap, (ops, a, b), g) && call_ensures(
            <G as Gaps<T>>::larger,
            (ops, m, g),
            r,
        )
}

/// `r` is the largest gap between the first `n` values.
pub open spec fn worst_is<T, G: Gaps<T>>(
    ops: &G,
    got: Seq<T>,
    want: Seq<T>,
    n: nat,
    r: T,
) -> bool
    decreases n,
{
    if n == 0 {
        none_is(ops, r)
    } else {
        exists|m: T|
            {
                &&& worst_is(ops, got, want, (n - 1) as nat, m)
                &&& #[trigger] wider_is(ops, m, got[n - 1], want[n - 1], r)
            }
    }
}

/// The largest gap between the values that both have.
pub fn worst_gap<T: Copy, G: Gaps<T>>(ops: &G, got: &[T], want: &[T]) -> (r: T)
    ensures
        worst_is(
            ops,
            got@,
            want@,
            if got@.len() <= want@.len() {
                got@.len()
            } else {
                want@.len()
            },
            r,
        ),
{
    let n = if got.len() <= want.len() {
        got.len()
    } else {
        want.len()
    };
    let mut m = ops.none();
    let mut i: usize = 0;
    assert(none_is(ops, m));
    while i < n
        invariant
            n <= got@.len(),
            n <= want@.len(),
            i <= n,
            worst_is(ops, got@, want@, i as nat, m),
        decreases n - i,
    {
        let g = ops.gap(got[i], want[i]);
        let next = ops.larger(m, g);
        proof {
            let k = (i + 1) as nat;
            assert(call_ensures(<G as Gaps<T>>::gap, (ops, got@[k - 1], want@[k - 1]), g));
            assert(worst_is(ops, got@, want@, (k - 1) as nat, m));
            assert(wider_is(ops, m, got@[k - 1], want@[k - 1], next));
        }
        m = next;
        i += 1;
    }
    m
}

} // verus!
