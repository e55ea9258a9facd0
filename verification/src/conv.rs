//! 3x3 convolutions, stride 1, pad 1.
//!
//! A checkpoint stores a convolution's weights as `[c_out][c_in][3][3]`, which
//! is what the device kernels read. The host reads a second copy with the input
//! channel innermost, made once at load. Every output element accumulates its
//! bias and then its taps in (ky, kx, ci) order, whatever the blocking.

use vstd::prelude::*;

use crate::grid::lemma_quot_rem;
use crate::plane::copied;

verus! {

/// A single 3x3 convolution's parameters, in the layout each backend wants.
pub struct Conv<T> {
    /// `[c_out][c_in][3][3]`: the checkpoint's own order.
    pub w: Vec<T>,
    /// `[c_out][3][3][c_in]`: the input channel innermost.
    pub w_cpu_ci: Vec<T>,
    pub bias: Vec<T>,
    pub c_out: usize,
}

/// Where tap `k` of input channel `ci` stands in the checkpoint's order.
pub open spec fn tap_pos(c_in: int, oc: int, k: int, ci: int) -> int {
    (oc * c_in + ci) * 9 + k
}

/// Where it stands with the input channel innermost.
pub open spec fn tap_pos_ci(c_in: int, oc: int, k: int, ci: int) -> int {
    (oc * 9 + k) * c_in + ci
}

/// Both positions lie inside the weights.
pub proof fn lemma_tap_pos(c_in: int, c_out: int, oc: int, k: int, ci: int)
    requires
        0 <= oc < c_out,
        0 <= k < 9,
        0 <= ci < c_in,
    ensures
        0 <= tap_pos(c_in, oc, k, ci) < c_out * c_in * 9,
        0 <= tap_pos_ci(c_in, oc, k, ci) < c_out * c_in * 9,
        0 <= oc * c_in + ci,
        0 <= (oc * 9 + k) * c_in,
        (oc * 9 + k) * c_in + c_in <= c_out * c_in * 9,
        oc * 9 + k <= (oc * 9 + k) * c_in,
{
    assert(0 <= oc * c_in + ci < c_out * c_in) by (nonlinear_arith)
        requires
            0 <= oc < c_out,
            0 <= ci < c_in,
    ;
    assert(c_out * 9 * c_in == c_out * c_in * 9) by (nonlinear_arith);
    assert(oc * 9 + k + 1 <= c_out * 9);
    assert((oc * 9 + k + 1) * c_in <= c_out * 9 * c_in) by (nonlinear_arith)
        requires
            oc * 9 + k + 1 <= c_out * 9,
            0 < c_in,
    ;
    assert((oc * 9 + k + 1) * c_in == (oc * 9 + k) * c_in + c_in) by (nonlinear_arith);
    assert(0 <= (oc * 9 + k) * c_in) by (nonlinear_arith)
        requires
            0 <= oc,
            0 <= k,
            0 < c_in,
    ;
    assert(oc * 9 + k <= (oc * 9 + k) * c_in) by (nonlinear_arith)
        requires
            0 <= oc,
            0 <= k,
            1 <= c_in,
    ;
}

impl<T> Conv<T> {
    /// The parameters of a convolution from `c_in` channels: the weights and
    /// the biases have their lengths, and both layouts hold the same weights.
    pub open spec fn shaped(self, c_in: int) -> bool {
        &&& self.w@.len() == self.c_out * c_in * 9
        &&& self.w_cpu_ci@.len() == self.w@.len()
        &&& self.bias@.len() == self.c_out
        &&& forall|oc: int, k: int, ci: int|
            0 <= oc < self.c_out && 0 <= k < 9 && 0 <= ci < c_in
                ==> #[trigger] self.w_cpu_ci@[tap_pos_ci(c_in, oc, k, ci)] == self.w@[tap_pos(
                c_in,
                oc,
                k,
                ci,
            )]
    }
}

impl<T: Copy> Conv<T> {
    /// A convolution from raw parameters, the weights in `[c_out][c_in][3][3]`
    /// order.
    pub fn from_parts(w: &[T], bias: &[T], c_in: usize, c_out: usize) -> (r: Conv<T>)
        requires
            w@.len() == c_out * c_in * 9,
            bias@.len() == c_out,
        ensures
            r.shaped(c_in as int),
            r.w@ == w@,
            r.bias@ == bias@,
            r.c_out == c_out,
    {
        Conv::new(w, bias, c_in, c_out)
    }

    pub(crate) fn new(w: &[T], bias: &[T], c_in: usize, c_out: usize) -> (r: Conv<T>)
        requires
            w@.len() == c_out * c_in * 9,
            bias@.len() == c_out,
        ensures
            r.shaped(c_in as int),
            r.w@ == w@,
            r.bias@ == bias@,
            r.c_out == c_out,
    {
        let n = w.len();
        let mut w_cpu_ci: Vec<T> = Vec::with_capacity(n);
        let mut oc: usize = 0;
        while oc < c_out
            invariant
                n == w@.len() == c_out * c_in * 9,
                oc <= c_out,
                w_cpu_ci@.len() == oc * 9 * c_in,
                reordered(w@, c_in as int, w_cpu_ci@),
            decreases c_out - oc,
        {
            let mut k: usize = 0;
            while k < 9
                invariant
                    n == w@.len() == c_out * c_in * 9,
                    oc < c_out,
                    k <= 9,
                    w_cpu_ci@.len() == (oc * 9 + k) * c_in,
                    reordered(w@, c_in as int, w_cpu_ci@),
                decreases 9 - k,
            {
                let mut ci: usize = 0;
                while ci < c_in
                    invariant
                        n == w@.len() == c_out * c_in * 9,
                        oc < c_out,
                        k < 9,
                        ci <= c_in,
                        w_cpu_ci@.len() == tap_pos_ci(c_in as int, oc as int, k as int, ci as int),
                        reordered(w@, c_in as int, w_cpu_ci@),
                    decreases c_in - ci,
                {
                    proof {
                        lemma_tap_pos(
                            c_in as int,
                            c_out as int,
                            oc as int,
                            k as int,
                            ci as int,
                        );
                        lemma_quot_rem(oc * 9 + k, c_in as int, ci as int);
                        lemma_quot_rem(oc as int, 9, k as int);
                        assert(0 <= oc * c_in) by (nonlinear_arith);
                    }
                    w_cpu_ci.push(w[(oc * c_in + ci) * 9 + k]);
                    ci += 1;
                }
                k += 1;
                assert((oc * 9 + k) * c_in == (oc * 9 + (k - 1)) * c_in + c_in)
                    by (nonlinear_arith);
            }
            oc += 1;
            assert(((oc - 1) * 9 + 9) * c_in == oc * 9 * c_in) by (nonlinear_arith);
        }
        assert(c_out * 9 * c_in == c_out * c_in * 9) by (nonlinear_arith);
        let r = Conv {
            w: copied(w, 0, n),
            w_cpu_ci,
            bias: copied(bias, 0, bias.len()),
            c_out,
        };
        proof {
            assert(r.w@ =~= w@);
            assert(r.bias@ =~= bias@);
            let n_in = c_in as int;
            assert forall|oc: int, k: int, ci: int|
                0 <= oc < c_out && 0 <= k < 9 && 0 <= ci
                    < n_in implies #[trigger] r.w_cpu_ci@[tap_pos_ci(n_in, oc, k, ci)]
                == r.w@[tap_pos(n_in, oc, k, ci)] by {
                lemma_tap_pos(n_in, c_out as int, oc, k, ci);
                lemma_quot_rem(oc * 9 + k, n_in, ci);
                lemma_quot_rem(oc, 9, k);
            }
        }
        r
    }
}

/// `v` holds, as far as it goes, the weights `w` with the input channel
/// innermost.
spec fn reordered<T>(w: Seq<T>, c_in: int, v: Seq<T>) -> bool {
    forall|i: int|
        0 <= i < v.len() ==> #[trigger] v[i] == w[tap_pos(
            c_in,
            (i / c_in) / 9,
            (i / c_in) % 9,
            i % c_in,
        )]
}

} // verus!
