//! The host's 3x3 convolution.
//!
//! The unit of work is a band of rows in every channel of one group of output
//! channels; bands are independent and run on the thread pool. A row is computed
//! in tiles, so that one weight serves a run of neighbouring pixels.

use vstd::prelude::*;

use crate::arith::leaky_relu;
use crate::arith::mul_acc_is;
use crate::arith::plus_is;
use crate::arith::single_valued;
use crate::arith::times_is;
use crate::arith::Arith;
use crate::conv::lemma_tap_pos;
use crate::conv::tap_pos;
use crate::conv::tap_pos_ci;
use crate::conv::Conv;
use crate::grid::cell;
use crate::grid::lemma_cell;
use crate::grid::lemma_quot_rem;
use crate::parallel::par_map;
use crate::parallel::pool_threads;
use crate::plane::append_range;
use crate::plane::filled;
use crate::plane::write_at;
use crate::profile::clock_now;
use crate::profile::nanos_since;
use crate::profile::ConvKey;
use crate::profile::ConvTiming;
use crate::profile::HostRun;
use crate::taps::activated;
use crate::taps::finished;
use crate::taps::scaled_add;
use crate::taps::Residual;
use crate::taps::Taps;

verus! {

/// The width of a tile, in output pixels.
pub const TX: usize = 32;

/// One convolution to run: the first `c_in` channels of `src` (which may be a
/// wider workspace), the parameters, the image size, and what follows the sum.
pub struct ConvCall<'a, T> {
    pub src: &'a [T],
    pub c_in: usize,
    pub conv: &'a Conv<T>,
    pub h: usize,
    pub w: usize,
    pub act: bool,
    pub res: Option<(&'a [T], T)>,
}

impl<'a, T: Copy> Clone for ConvCall<'a, T> {
    fn clone(&self) -> (r: Self)
        ensures
            r == *self,
    {
        *self
    }
}

impl<'a, T: Copy> Copy for ConvCall<'a, T> {

}

impl<'a, T> ConvCall<'a, T> {
    pub open spec fn wf(self) -> bool {
        &&& 0 < self.h
        &&& 0 < self.w
        &&& self.h * self.w <= usize::MAX
        &&& self.c_in * self.h * self.w <= self.src@.len()
        &&& self.conv.shaped(self.c_in as int)
        &&& self.conv.c_out * self.h * self.w <= usize::MAX
        &&& self.res matches Some((r, _)) ==> self.conv.c_out * self.h * self.w <= r@.len()
    }

    /// The operands.
    pub open spec fn taps(self) -> Taps<T> {
        Taps {
            src: self.src@.take(self.c_in * self.h * self.w),
            c_in: self.c_in as int,
            wt: self.conv.w@,
            bias: self.conv.bias@,
            h: self.h as int,
            w: self.w as int,
        }
    }

    pub open spec fn res_view(self) -> Option<(Seq<T>, T)> {
        match self.res {
            Some((r, f)) => Some((r@, f)),
            None => None,
        }
    }

    /// `r` is the element of channel `oc` at (`y`, `x`).
    pub open spec fn value<A: Arith<T>>(self, ops: &A, oc: int, y: int, x: int, r: T) -> bool {
        self.taps().value(ops, self.act, self.res_view(), oc, y, x, r)
    }

    /// Each of `acc` is the sum of the first `k` taps of channel `oc` in row `y`,
    /// for the pixels from `x0` on.
    pub open spec fn sums<A: Arith<T>>(self, ops: &A, oc: int, y: int, x0: int, k: nat, acc: Seq<T>) -> bool {
        forall|j: int|
            0 <= j < acc.len() ==> self.taps().pixel_sum(ops, oc, y, x0 + j, k, #[trigger] acc[j])
    }

    /// Between `lo` and `hi`, `acc` is `from` after `n` channels of tap `k`;
    /// elsewhere it is `from`.
    spec fn tap_sums<A: Arith<T>>(
        self,
        ops: &A,
        oc: int,
        y: int,
        x0: int,
        k: int,
        lo: int,
        hi: int,
        n: nat,
        from: Seq<T>,
        acc: Seq<T>,
    ) -> bool {
        &&& acc.len() == from.len()
        &&& forall|j: int|
            0 <= j < acc.len() ==> if lo <= j < hi {
                self.taps().tap_sum(ops, oc, y, x0 + j, k, from[j], n, #[trigger] acc[j])
            } else {
                acc[j] == from[j]
            }
    }

    /// A whole tap was accumulated where it lies inside the image.
    proof fn lemma_next_tap<A: Arith<T>>(
        self,
        ops: &A,
        oc: int,
        y: int,
        x0: int,
        k: int,
        lo: int,
        hi: int,
        from: Seq<T>,
        acc: Seq<T>,
    )
        requires
            0 <= k,
            self.sums(ops, oc, y, x0, k as nat, from),
            self.tap_sums(ops, oc, y, x0, k, lo, hi, self.c_in as nat, from, acc),
            forall|j: int|
                0 <= j < acc.len() ==> (lo <= j < hi <==> #[trigger] self.taps().inside(
                    y,
                    x0 + j,
                    k,
                )),
        ensures
            self.sums(ops, oc, y, x0, (k + 1) as nat, acc),
    {
        let t = self.taps();
        assert forall|j: int| 0 <= j < acc.len() implies t.pixel_sum(
            ops,
            oc,
            y,
            x0 + j,
            (k + 1) as nat,
            #[trigger] acc[j],
        ) by {
            assert(t.pixel_sum(ops, oc, y, x0 + j, k as nat, from[j]));
            assert(lo <= j < hi <==> t.inside(y, x0 + j, k));
            let n = (k + 1) as nat;
            assert(t.tap(ops, oc, y, x0 + j, n - 1, from[j], acc[j]));
            assert(t.pixel_sum(ops, oc, y, x0 + j, (n - 1) as nat, from[j]));
            assert(t.pixel_sum(ops, oc, y, x0 + j, n, acc[j]));
        }
    }
}

impl<'a, T> ConvCall<'a, T> {
    /// One more channel of a tap was accumulated between `lo` and `hi`, from the
    /// source values at `base` on.
    proof fn lemma_next_channel<A: Arith<T>>(
        self,
        ops: &A,
        oc: int,
        y: int,
        x0: int,
        k: int,
        lo: int,
        hi: int,
        ci: int,
        base: int,
        from: Seq<T>,
        before: Seq<T>,
        after: Seq<T>,
    )
        requires
            self.wf(),
            0 <= k < 9,
            0 <= oc < self.conv.c_out,
            0 <= ci < self.c_in,
            0 <= y + k / 3 - 1 < self.h,
            forall|j: int| lo <= j < hi ==> 0 <= #[trigger] (x0 + j) + k % 3 - 1 < self.w,
            base == cell(self.h as int, self.w as int, ci, y + k / 3 - 1, x0 + lo + k % 3 - 1),
            self.tap_sums(ops, oc, y, x0, k, lo, hi, ci as nat, from, before),
            after.len() == before.len(),
            forall|j: int|
                0 <= j < before.len() ==> if lo <= j < hi {
                    mul_acc_is(
                        ops,
                        self.conv.w@[tap_pos(self.c_in as int, oc, k, ci)],
                        self.src@[base + j - lo],
                        before[j],
                        #[trigger] after[j],
                    )
                } else {
                    after[j] == before[j]
                },
        ensures
            self.tap_sums(ops, oc, y, x0, k, lo, hi, (ci + 1) as nat, from, after),
    {
        let t = self.taps();
        let n = (ci + 1) as nat;
        assert forall|j: int| 0 <= j < after.len() implies if lo <= j < hi {
            t.tap_sum(ops, oc, y, x0 + j, k, from[j], n, #[trigger] after[j])
        } else {
            after[j] == from[j]
        } by {
            let _ = before[j];
            if lo <= j < hi {
                let (yy, xx) = (y + k / 3 - 1, (x0 + j) + k % 3 - 1);
                lemma_cell(self.c_in as int, self.h as int, self.w as int, ci, yy, xx);
                assert(base + j - lo == cell(self.h as int, self.w as int, ci, yy, xx));
                assert(self.src@[base + j - lo] == t.source(y, x0 + j, k, ci));
                assert(t.tap_sum(ops, oc, y, x0 + j, k, from[j], (n - 1) as nat, before[j]));
                assert(mul_acc_is(
                    ops,
                    t.weight(oc, k, n - 1),
                    t.source(y, x0 + j, k, n - 1),
                    before[j],
                    after[j],
                ));
            }
        }
    }
}

/// The row that tap row `ky` of output row `y` reads, if it lies in the image.
pub fn y_iter(y: usize, ky: usize, h: usize) -> (r: Option<usize>)
    requires
        y < h,
        ky < 3,
    ensures
        r == (if 0 <= y + ky - 1 < h {
            Some((y + ky - 1) as usize)
        } else {
            None::<usize>
        }),
{
    if ky == 0 {
        if y == 0 {
            None
        } else {
            Some(y - 1)
        }
    } else if ky == 1 {
        Some(y)
    } else if y < h - 1 {
        Some(y + 1)
    } else {
        None
    }
}

/// `acc[j] += wt * src[base + j - lo]` for every `j` from `lo` up to `hi`.
fn axpy_span<T: Copy, A: Arith<T>>(
    ops: &A,
    wt: T,
    src: &[T],
    base: usize,
    acc: &mut Vec<T>,
    lo: usize,
    hi: usize,
)
    requires
        lo <= hi <= old(acc)@.len(),
        base + (hi - lo) <= src@.len(),
    ensures
        final(acc)@.len() == old(acc)@.len(),
        forall|j: int|
            0 <= j < old(acc)@.len() ==> if lo <= j < hi {
                mul_acc_is(ops, wt, src@[base + j - lo], old(acc)@[j], #[trigger] final(acc)@[j])
            } else {
                final(acc)@[j] == old(acc)@[j]
            },
{
    let n = src.len();
    let mut j: usize = lo;
    while j < hi
        invariant
            lo <= j <= hi <= acc@.len(),
            n == src@.len(),
            base + (hi - lo) <= n,
            acc@.len() == old(acc)@.len(),
            forall|i: int|
                0 <= i < acc@.len() ==> if lo <= i < j {
                    mul_acc_is(ops, wt, src@[base + i - lo], old(acc)@[i], #[trigger] acc@[i])
                } else {
                    acc@[i] == old(acc)@[i]
                },
        decreases hi - j,
    {
        let v = ops.mul_acc(wt, src[base + (j - lo)], acc[j]);
        acc[j] = v;
        j += 1;
    }
}

impl<'a, T: Copy> ConvCall<'a, T> {
    /// The sums of one channel for `nx` pixels of row `y` from `x0` on, wherever
    /// they lie: a tap column that falls outside the image shortens the span.
    fn tile_general<A: Arith<T>>(&self, ops: &A, oc: usize, y: usize, x0: usize, nx: usize) -> (acc:
        Vec<T>)
        requires
            self.wf(),
            oc < self.conv.c_out,
            y < self.h,
            0 < nx,
            x0 + nx <= self.w,
        ensures
            acc@.len() == nx,
            self.sums(ops, oc as int, y as int, x0 as int, 9, acc@),
    {
        let (c_in, h, w) = (self.c_in, self.h, self.w);
        let mut acc: Vec<T> = filled(nx, self.conv.bias[oc]);
        let mut k: usize = 0;
        while k < 9
            invariant
                self.wf(),
                (c_in, h, w) == (self.c_in, self.h, self.w),
                oc < self.conv.c_out,
                y < h,
                0 < nx,
                x0 + nx <= w,
                k <= 9,
                acc@.len() == nx,
                self.sums(ops, oc as int, y as int, x0 as int, k as nat, acc@),
            decreases 9 - k,
        {
            let (ky, kx) = (k / 3, k % 3);
            let mut lo: usize = 0;
            let mut hi: usize = nx;
            let ghost from = acc@;
            match y_iter(y, ky, h) {
                Some(iy) => {
                    if kx == 0 && x0 == 0 {
                        lo = 1;
                    }
                    if kx == 2 && x0 + nx == w {
                        hi = nx - 1;
                    }
                    if lo < hi {
                        let base = x0 + lo + kx - 1;
                        let mut ci: usize = 0;
                        while ci < c_in
                            invariant
                                self.wf(),
                                (c_in, h, w) == (self.c_in, self.h, self.w),
                                                oc < self.conv.c_out,
                                k < 9,
                                kx == k % 3,
                                y + k / 3 - 1 == iy < h,
                                y < h,
                                x0 + nx <= w,
                                lo < hi <= nx,
                                base == x0 + lo + kx - 1,
                                lo == (if kx == 0 && x0 == 0 { 1int } else { 0int }),
                                hi == (if kx == 2 && x0 + nx == w { nx - 1 } else { nx as int }),
                                ci <= c_in,
                                acc@.len() == nx,
                                self.tap_sums(
                                    ops,
                                    oc as int,
                                    y as int,
                                    x0 as int,
                                    k as int,
                                    lo as int,
                                    hi as int,
                                    ci as nat,
                                    from,
                                    acc@,
                                ),
                            decreases c_in - ci,
                        {
                            let ghost before = acc@;
                            proof {
                                lemma_tap_pos(
                                    c_in as int,
                                    self.conv.c_out as int,
                                    oc as int,
                                    k as int,
                                    ci as int,
                                );
                                lemma_cell(
                                    c_in as int,
                                    h as int,
                                    w as int,
                                    ci as int,
                                    iy as int,
                                    base as int,
                                );
                                lemma_cell(
                                    c_in as int,
                                    h as int,
                                    w as int,
                                    ci as int,
                                    iy as int,
                                    base + (hi - lo) - 1,
                                );
                                assert(0 <= ci * (h * w)) by (nonlinear_arith);
                                assert(0 <= iy * w) by (nonlinear_arith);
                                assert(self.src.len() == self.src@.len());
                                assert(self.conv.w_cpu_ci.len() == self.conv.w_cpu_ci@.len());
                                assert(self.conv.w_cpu_ci@[tap_pos_ci(
                                    c_in as int,
                                    oc as int,
                                    k as int,
                                    ci as int,
                                )] == self.conv.w@[tap_pos(
                                    c_in as int,
                                    oc as int,
                                    k as int,
                                    ci as int,
                                )]);
                            }
                            let wv = self.conv.w_cpu_ci[(oc * 9 + k) * c_in + ci];
                            axpy_span(
                                ops,
                                wv,
                                self.src,
                                ci * (h * w) + iy * w + base,
                                &mut acc,
                                lo,
                                hi,
                            );
                            proof {
                                self.lemma_next_channel(
                                    ops,
                                    oc as int,
                                    y as int,
                                    x0 as int,
                                    k as int,
                                    lo as int,
                                    hi as int,
                                    ci as int,
                                    ci * (h * w) + iy * w + base,
                                    from,
                                    before,
                                    acc@,
                                );
                            }
                            ci += 1;
                        }
                    }
                },
                None => {
                    hi = 0;
                },
            }
            proof {
                self.lemma_next_tap(
                    ops,
                    oc as int,
                    y as int,
                    x0 as int,
                    k as int,
                    lo as int,
                    hi as int,
                    from,
                    acc@,
                );
            }
            k += 1;
        }
        acc
    }

    /// The sums of `n_oc` neighbouring channels for `nx` pixels of row `y` from
    /// `x0` on, in one pass over the taps. The pixels are not at the ends of the
    /// row, so every tap column lies inside the image.
    fn tile_interior<A: Arith<T>>(
        &self,
        ops: &A,
        oc_base: usize,
        n_oc: usize,
        y: usize,
        x0: usize,
        nx: usize,
    ) -> (accs: Vec<Vec<T>>)
        requires
            self.wf(),
            oc_base + n_oc <= self.conv.c_out,
            y < self.h,
            0 < nx,
            0 < x0,
            x0 + nx < self.w,
        ensures
            accs@.len() == n_oc,
            self.group_sums(ops, oc_base as int, y as int, x0 as int, nx as int, 9, accs@),
    {
        let (c_in, h, w) = (self.c_in, self.h, self.w);
        let mut accs: Vec<Vec<T>> = Vec::with_capacity(n_oc);
        while accs.len() < n_oc
            invariant
                self.wf(),
                oc_base + n_oc <= self.conv.c_out,
                accs@.len() <= n_oc,
                self.group_sums(ops, oc_base as int, y as int, x0 as int, nx as int, 0, accs@),
            decreases n_oc - accs@.len(),
        {
            let b = self.conv.bias[oc_base + accs.len()];
            accs.push(filled(nx, b));
        }
        let mut k: usize = 0;
        while k < 9
            invariant
                self.wf(),
                (c_in, h, w) == (self.c_in, self.h, self.w),
                oc_base + n_oc <= self.conv.c_out,
                y < h,
                0 < nx,
                0 < x0,
                x0 + nx < w,
                k <= 9,
                accs@.len() == n_oc,
                self.group_sums(
                    ops,
                    oc_base as int,
                    y as int,
                    x0 as int,
                    nx as int,
                    k as nat,
                    accs@,
                ),
            decreases 9 - k,
        {
            let (ky, kx) = (k / 3, k % 3);
            let ghost from = accs@;
            let ghost mut hi = 0int;
            match y_iter(y, ky, h) {
                Some(iy) => {
                    proof {
                        hi = nx as int;
                    }
                    let base = x0 + kx - 1;
                    let mut ci: usize = 0;
                    while ci < c_in
                        invariant
                            self.wf(),
                            (c_in, h, w) == (self.c_in, self.h, self.w),
                            oc_base + n_oc <= self.conv.c_out,
                            k < 9,
                            kx == k % 3,
                            y + k / 3 - 1 == iy < h,
                            y < h,
                            0 < nx,
                            0 < x0,
                            x0 + nx < w,
                            base == x0 + kx - 1,
                            ci <= c_in,
                            accs@.len() == n_oc == from.len(),
                            forall|o: int| 0 <= o < n_oc ==> #[trigger] from[o]@.len() == nx,
                            forall|o: int|
                                0 <= o < n_oc ==> self.tap_sums(
                                    ops,
                                    oc_base + o,
                                    y as int,
                                    x0 as int,
                                    k as int,
                                    0,
                                    nx as int,
                                    ci as nat,
                                    from[o]@,
                                    #[trigger] accs@[o]@,
                                ),
                        decreases c_in - ci,
                    {
                        proof {
                            lemma_cell(
                                c_in as int,
                                h as int,
                                w as int,
                                ci as int,
                                iy as int,
                                base as int,
                            );
                            lemma_cell(
                                c_in as int,
                                h as int,
                                w as int,
                                ci as int,
                                iy as int,
                                base + nx - 1,
                            );
                            assert(0 <= ci * (h * w)) by (nonlinear_arith);
                            assert(0 <= iy * w) by (nonlinear_arith);
                            assert(self.src.len() == self.src@.len());
                        }
                        let at = ci * (h * w) + iy * w + base;
                        let mut o: usize = 0;
                        while o < n_oc
                            invariant
                                self.wf(),
                                (c_in, h, w) == (self.c_in, self.h, self.w),
                                oc_base + n_oc <= self.conv.c_out,
                                k < 9,
                                kx == k % 3,
                                y + k / 3 - 1 == iy < h,
                                y < h,
                                0 < nx,
                                0 < x0,
                                x0 + nx < w,
                                base == x0 + kx - 1,
                                at == cell(h as int, w as int, ci as int, iy as int, base as int),
                                at + nx <= self.src@.len(),
                                ci < c_in,
                                o <= n_oc,
                                accs@.len() == n_oc == from.len(),
                                forall|i: int| 0 <= i < n_oc ==> #[trigger] from[i]@.len() == nx,
                                forall|i: int|
                                    0 <= i < n_oc ==> self.tap_sums(
                                        ops,
                                        oc_base + i,
                                        y as int,
                                        x0 as int,
                                        k as int,
                                        0,
                                        nx as int,
                                        (if i < o {
                                            ci + 1
                                        } else {
                                            ci as int
                                        }) as nat,
                                        from[i]@,
                                        #[trigger] accs@[i]@,
                                    ),
                            decreases n_oc - o,
                        {
                            let oc = oc_base + o;
                            let ghost before = accs@;
                            proof {
                                lemma_tap_pos(
                                    c_in as int,
                                    self.conv.c_out as int,
                                    oc as int,
                                    k as int,
                                    ci as int,
                                );
                                assert(self.conv.w_cpu_ci.len() == self.conv.w_cpu_ci@.len());
                                assert(self.conv.w_cpu_ci@[tap_pos_ci(
                                    c_in as int,
                                    oc as int,
                                    k as int,
                                    ci as int,
                                )] == self.conv.w@[tap_pos(
                                    c_in as int,
                                    oc as int,
                                    k as int,
                                    ci as int,
                                )]);
                                assert(from[o as int]@.len() == nx && before[o as int]@.len()
                                    == nx);
                            }
                            let wv = self.conv.w_cpu_ci[(oc * 9 + k) * c_in + ci];
                            axpy_span(ops, wv, self.src, at, &mut accs[o], 0, nx);
                            proof {
                                self.lemma_next_channel(
                                    ops,
                                    oc as int,
                                    y as int,
                                    x0 as int,
                                    k as int,
                                    0,
                                    nx as int,
                                    ci as int,
                                    at as int,
                                    from[o as int]@,
                                    before[o as int]@,
                                    accs@[o as int]@,
                                );
                            }
                            o += 1;
                        }
                        ci += 1;
                    }
                },
                None => {},
            }
            proof {
                assert forall|o: int| 0 <= o < n_oc implies #[trigger] accs@[o]@.len() == nx
                    && self.sums(
                    ops,
                    oc_base + o,
                    y as int,
                    x0 as int,
                    (k + 1) as nat,
                    accs@[o]@,
                ) by {
                    let _ = from[o];
                    self.lemma_next_tap(
                        ops,
                        oc_base + o,
                        y as int,
                        x0 as int,
                        k as int,
                        0,
                        hi,
                        from[o]@,
                        accs@[o]@,
                    );
                }
            }
            k += 1;
        }
        accs
    }

    /// The element at (`y`, `x`) of channel `oc`, from its sum.
    fn finish<A: Arith<T>>(&self, ops: &A, oc: usize, y: usize, x: usize, s: T) -> (r: T)
        requires
            self.wf(),
            oc < self.conv.c_out,
            y < self.h,
            x < self.w,
            self.taps().pixel_sum(ops, oc as int, y as int, x as int, 9, s),
        ensures
            self.value(ops, oc as int, y as int, x as int, r),
    {
        let v = if self.act {
            leaky_relu(ops, s)
        } else {
            s
        };
        assert(activated(ops, self.act, s, v));
        let ghost t = self.taps();
        match self.res {
            Some((b, f)) => {
                proof {
                    lemma_cell(
                        self.conv.c_out as int,
                        self.h as int,
                        self.w as int,
                        oc as int,
                        y as int,
                        x as int,
                    );
                    let (oc, y, h, w) = (oc as int, y as int, self.h as int, self.w as int);
                    assert(0 <= oc * (h * w) && 0 <= y * w) by (nonlinear_arith)
                        requires
                            0 <= oc,
                            0 <= y,
                            0 <= h,
                            0 <= w,
                    ;
                }
                let m = ops.times(f, b[oc * (self.h * self.w) + y * self.w + x]);
                let r = ops.plus(v, m);
                let ghost bv = b@[cell(t.h, t.w, oc as int, y as int, x as int)];
                assert(t.res_at(self.res_view(), oc as int, y as int, x as int) == Some(
                    Residual { operand: bv, factor: f },
                ));
                assert(times_is(ops, f, bv, m) && plus_is(ops, v, m, r));
                assert(scaled_add(ops, v, f, bv, r));
                assert(finished(
                    ops,
                    self.act,
                    t.res_at(self.res_view(), oc as int, y as int, x as int),
                    s,
                    r,
                ));
                r
            },
            None => {
                assert(finished(
                    ops,
                    self.act,
                    t.res_at(self.res_view(), oc as int, y as int, x as int),
                    s,
                    v,
                ));
                v
            },
        }
    }
}

impl<'a, T> ConvCall<'a, T> {
    /// `sums` for each of a group of channels.
    pub open spec fn group_sums<A: Arith<T>>(
        self,
        ops: &A,
        oc_base: int,
        y: int,
        x0: int,
        nx: int,
        k: nat,
        accs: Seq<Vec<T>>,
    ) -> bool {
        forall|o: int|
            0 <= o < accs.len() ==> #[trigger] accs[o]@.len() == nx && self.sums(
                ops,
                oc_base + o,
                y,
                x0,
                k,
                accs[o]@,
            )
    }

    /// Grouping the channels does not show: where the arithmetic gives one result
    /// for its operands, a channel's sums are the same in any two groups, of which
    /// one may hold that channel alone.
    pub proof fn grouping_does_not_show<A: Arith<T>>(
        self,
        ops: &A,
        y: int,
        x0: int,
        nx: int,
        base: int,
        accs: Seq<Vec<T>>,
        o: int,
        other_base: int,
        other: Seq<Vec<T>>,
        p: int,
    )
        requires
            single_valued(ops),
            self.group_sums(ops, base, y, x0, nx, 9, accs),
            self.group_sums(ops, other_base, y, x0, nx, 9, other),
            0 <= o < accs.len(),
            0 <= p < other.len(),
            base + o == other_base + p,
        ensures
            accs[o]@ == other[p]@,
    {
        let (a, b) = (accs[o]@, other[p]@);
        assert(a.len() == nx && b.len() == nx);
        assert forall|j: int| 0 <= j < nx implies a[j] == b[j] by {
            self.taps().lemma_pixel_sum_once(ops, base + o, y, x0 + j, 9, a[j], b[j]);
        }
        assert(a =~= b);
    }
}

/// One unit of work: the rows `y0 .. y0 + rows` of the channels
/// `oc_base .. oc_base + n_oc`.
pub struct BandTask {
    pub oc_base: usize,
    pub n_oc: usize,
    pub y0: usize,
    pub rows: usize,
}

impl<'a, T> ConvCall<'a, T> {
    /// `v` holds elements of channel `oc`, row after row, from row `y0` on.
    pub open spec fn rows_of<A: Arith<T>>(self, ops: &A, oc: int, y0: int, v: Seq<T>) -> bool {
        forall|i: int|
            0 <= i < v.len() ==> self.value(
                ops,
                oc,
                y0 + i / (self.w as int),
                i % (self.w as int),
                #[trigger] v[i],
            )
    }

    /// `out` holds the work of `t`: the rows of each of its channels.
    pub open spec fn band<A: Arith<T>>(self, ops: &A, t: BandTask, out: Seq<Vec<T>>) -> bool {
        &&& out.len() == t.n_oc
        &&& forall|o: int|
            0 <= o < out.len() ==> #[trigger] out[o]@.len() == t.rows * self.w && self.rows_of(
                ops,
                t.oc_base + o,
                t.y0 as int,
                out[o]@,
            )
    }

    /// Is `t` work of this convolution?
    pub open spec fn has_task(self, t: BandTask) -> bool {
        t.oc_base + t.n_oc <= self.conv.c_out && t.y0 + t.rows <= self.h
    }
}

impl<'a, T: Copy> ConvCall<'a, T> {
    /// Finishes the sums of one tile and appends them to the rows of channel `oc`.
    fn append_tile<A: Arith<T>>(
        &self,
        ops: &A,
        oc: usize,
        y0: usize,
        y: usize,
        x0: usize,
        acc: &Vec<T>,
        out: &mut Vec<T>,
    )
        requires
            self.wf(),
            oc < self.conv.c_out,
            y0 <= y < self.h,
            x0 + acc@.len() <= self.w,
            self.sums(ops, oc as int, y as int, x0 as int, 9, acc@),
            old(out)@.len() == (y - y0) * self.w + x0,
            self.rows_of(ops, oc as int, y0 as int, old(out)@),
        ensures
            final(out)@.len() == old(out)@.len() + acc@.len(),
            self.rows_of(ops, oc as int, y0 as int, final(out)@),
    {
        let nx = acc.len();
        let mut t: usize = 0;
        while t < nx
            invariant
                self.wf(),
                oc < self.conv.c_out,
                y0 <= y < self.h,
                nx == acc@.len(),
                x0 + nx <= self.w,
                t <= nx,
                self.sums(ops, oc as int, y as int, x0 as int, 9, acc@),
                old(out)@.len() == (y - y0) * self.w + x0,
                out@.len() == old(out)@.len() + t,
                self.rows_of(ops, oc as int, y0 as int, out@),
            decreases nx - t,
        {
            let v = self.finish(ops, oc, y, x0 + t, acc[t]);
            proof {
                lemma_quot_rem(y - y0, self.w as int, x0 + t);
            }
            out.push(v);
            t += 1;
        }
    }

    /// Does one unit of work.
    pub fn conv_band<A: Arith<T>>(&self, ops: &A, task: &BandTask) -> (outs: Vec<Vec<T>>)
        requires
            self.wf(),
            self.has_task(*task),
        ensures
            self.band(ops, *task, outs@),
    {
        let (w, oc_base, n_oc, y0) = (self.w, task.oc_base, task.n_oc, task.y0);
        let mut outs: Vec<Vec<T>> = Vec::with_capacity(n_oc);
        while outs.len() < n_oc
            invariant
                outs@.len() <= n_oc,
                forall|o: int| 0 <= o < outs@.len() ==> #[trigger] outs@[o]@.len() == 0,
            decreases n_oc - outs@.len(),
        {
            outs.push(Vec::new());
        }
        let mut y: usize = y0;
        let y1 = y0 + task.rows;
        while y < y1
            invariant
                self.wf(),
                self.has_task(*task),
                (w, oc_base, n_oc, y0) == (self.w, task.oc_base, task.n_oc, task.y0),
                y1 == y0 + task.rows,
                y0 <= y <= y1,
                outs@.len() == n_oc,
                forall|o: int|
                    0 <= o < n_oc ==> #[trigger] outs@[o]@.len() == (y - y0) * w && self.rows_of(
                        ops,
                        oc_base + o,
                        y0 as int,
                        outs@[o]@,
                    ),
            decreases y1 - y,
        {
            let mut x0: usize = 0;
            while x0 < w
                invariant
                    self.wf(),
                    self.has_task(*task),
                    (w, oc_base, n_oc, y0) == (self.w, task.oc_base, task.n_oc, task.y0),
                    y1 == y0 + task.rows,
                    y0 <= y < y1,
                    x0 <= w,
                    outs@.len() == n_oc,
                    forall|o: int|
                        0 <= o < n_oc ==> #[trigger] outs@[o]@.len() == (y - y0) * w + x0
                            && self.rows_of(ops, oc_base + o, y0 as int, outs@[o]@),
                decreases w - x0,
            {
                let nx = if TX <= w - x0 {
                    TX
                } else {
                    w - x0
                };
                let interior = nx == TX && x0 > 0 && TX < w - x0;
                let mut accs: Vec<Vec<T>> = Vec::new();
                if interior {
                    accs = self.tile_interior(ops, oc_base, n_oc, y, x0, nx);
                } else {
                    while accs.len() < n_oc
                        invariant
                            self.wf(),
                            oc_base + n_oc <= self.conv.c_out,
                            y < self.h,
                            0 < nx,
                            x0 + nx <= self.w,
                            accs@.len() <= n_oc,
                            self.group_sums(
                                ops,
                                oc_base as int,
                                y as int,
                                x0 as int,
                                nx as int,
                                9,
                                accs@,
                            ),
                        decreases n_oc - accs@.len(),
                    {
                        let acc = self.tile_general(ops, oc_base + accs.len(), y, x0, nx);
                        accs.push(acc);
                    }
                }
                let mut o: usize = 0;
                while o < n_oc
                    invariant
                        self.wf(),
                        self.has_task(*task),
                        (w, oc_base, n_oc, y0) == (self.w, task.oc_base, task.n_oc, task.y0),
                        y1 == y0 + task.rows,
                        y0 <= y < y1,
                        x0 + nx <= w,
                        o <= n_oc,
                        outs@.len() == n_oc == accs@.len(),
                        self.group_sums(
                            ops,
                            oc_base as int,
                            y as int,
                            x0 as int,
                            nx as int,
                            9,
                            accs@,
                        ),
                        forall|i: int|
                            0 <= i < n_oc ==> #[trigger] outs@[i]@.len() == (y - y0) * w + x0 + (
                            if i < o {
                                nx as int
                            } else {
                                0
                            }) && self.rows_of(ops, oc_base + i, y0 as int, outs@[i]@),
                    decreases n_oc - o,
                {
                    let ghost before = outs@;
                    assert(accs@[o as int]@.len() == nx);
                    assert(before[o as int]@.len() == (y - y0) * w + x0);
                    self.append_tile(ops, oc_base + o, y0, y, x0, &accs[o], &mut outs[o]);
                    o += 1;
                }
                x0 += nx;
            }
            y += 1;
            assert((y - y0) * w == (y - 1 - y0) * w + w) by (nonlinear_arith);
        }
        outs
    }
}

/// How many tasks each channel group is split into, by rows: the largest of 8,
/// 4, 2 and 1 that divides the height and is not less than what gives every
/// thread several tasks; 1 where none is.
pub open spec fn bands(nthreads: int, c_out: int, h: int) -> int {
    let want = bands_wanted(nthreads, c_out);
    if h % 8 == 0 && 8 >= want {
        8
    } else if h % 4 == 0 && 4 >= want {
        4
    } else if h % 2 == 0 && 2 >= want {
        2
    } else {
        1
    }
}

/// Four tasks per thread, spread over the channels.
pub open spec fn bands_wanted(nthreads: int, c_out: int) -> int {
    let per = if c_out < 1 {
        1
    } else {
        c_out
    };
    let want = (4 * nthreads + per - 1) / per;
    if want < 1 {
        1
    } else {
        want
    }
}

/// How many tasks each channel group is split into.
pub fn band_count(nthreads: usize, c_out: usize, h: usize) -> (r: usize)
    requires
        4 * nthreads <= usize::MAX,
    ensures
        r == bands(nthreads as int, c_out as int, h as int),
        r == 1 || r == 2 || r == 4 || r == 8,
        h % r == 0,
{
    let per = if c_out < 1 {
        1
    } else {
        c_out
    };
    let all = 4 * nthreads;
    let up: usize = if all % per == 0 {
        0
    } else {
        1
    };
    proof {
        let (q, m, per) = (all as int / per as int, all as int % per as int, per as int);
        vstd::arithmetic::div_mod::lemma_fundamental_div_mod(all as int, per);
        if m == 0 {
            vstd::arithmetic::div_mod::lemma_fundamental_div_mod_converse(
                all + per - 1,
                per,
                q,
                per - 1,
            );
        } else {
            assert(all + per - 1 == (q + 1) * per + (m - 1)) by (nonlinear_arith)
                requires
                    all == per * q + m,
            ;
            vstd::arithmetic::div_mod::lemma_fundamental_div_mod_converse(
                all + per - 1,
                per,
                q + 1,
                m - 1,
            );
            assert(q < all) by (nonlinear_arith)
                requires
                    all == per * q + m,
                    0 < m,
                    1 <= per,
                    0 <= q,
            ;
        }
    }
    let want = all / per + up;
    if h % 8 == 0 && 8 >= want {
        8
    } else if h % 4 == 0 && 4 >= want {
        4
    } else if h % 2 == 0 && 2 >= want {
        2
    } else {
        1
    }
}

/// How many output channels are computed in one pass: three, unless one or two
/// were asked for.
pub fn oc_group(asked: Option<usize>) -> (r: usize)
    ensures
        r == (if asked == Some(1usize) {
            1usize
        } else if asked == Some(2usize) {
            2usize
        } else {
            3usize
        }),
{
    match asked {
        Some(n) => if n == 1 {
            1
        } else if n == 2 {
            2
        } else {
            3
        },
        None => 3,
    }
}

/// Task `i` of a convolution to `c_out` channels, `group` at a time, each group
/// in `nband` bands of `rows` rows.
pub open spec fn task_at(c_out: int, group: int, nband: int, rows: int, i: int) -> BandTask {
    let base = (i / nband) * group;
    BandTask {
        oc_base: base as usize,
        n_oc: (if group < c_out - base {
            group
        } else {
            c_out - base
        }) as usize,
        y0: ((i % nband) * rows) as usize,
        rows: rows as usize,
    }
}

/// All the tasks of a convolution: every band of every channel group, the last
/// group possibly smaller.
pub fn band_tasks(c_out: usize, group: usize, nband: usize, rows: usize) -> (r: Vec<BandTask>)
    requires
        0 < group,
        0 < nband,
        nband * rows <= usize::MAX,
    ensures
        r@.len() == ((c_out + group - 1) / (group as int)) * nband,
        forall|i: int|
            0 <= i < r@.len() ==> #[trigger] r@[i] == task_at(
                c_out as int,
                group as int,
                nband as int,
                rows as int,
                i,
            ),
{
    let mut r: Vec<BandTask> = Vec::new();
    let ghost mut g = 0int;
    let mut oc_base: usize = 0;
    while oc_base < c_out
        invariant
            0 < group,
            0 < nband,
            nband * rows <= usize::MAX,
            0 <= g,
            oc_base == if g * group < c_out {
                g * group
            } else {
                c_out as int
            },
            g == 0 || (g - 1) * group < c_out,
            r@.len() == g * nband,
            forall|i: int|
                0 <= i < r@.len() ==> #[trigger] r@[i] == task_at(
                    c_out as int,
                    group as int,
                    nband as int,
                    rows as int,
                    i,
                ),
        decreases c_out - oc_base,
    {
        let n_oc = if group < c_out - oc_base {
            group
        } else {
            c_out - oc_base
        };
        let mut bi: usize = 0;
        while bi < nband
            invariant
                0 < group,
                0 < nband,
                nband * rows <= usize::MAX,
                0 <= g,
                oc_base == g * group < c_out,
                n_oc == if group < c_out - oc_base {
                    group as int
                } else {
                    c_out - oc_base
                },
                bi <= nband,
                r@.len() == g * nband + bi,
                forall|i: int|
                    0 <= i < r@.len() ==> #[trigger] r@[i] == task_at(
                        c_out as int,
                        group as int,
                        nband as int,
                        rows as int,
                        i,
                    ),
            decreases nband - bi,
        {
            proof {
                lemma_quot_rem(g, nband as int, bi as int);
                assert(0 <= bi * rows <= nband * rows) by (nonlinear_arith)
                    requires
                        bi < nband,
                ;
            }
            r.push(BandTask { oc_base, n_oc, y0: bi * rows, rows });
            bi += 1;
        }
        assert((g + 1) * nband == g * nband + nband) by (nonlinear_arith);
        assert((g + 1) * group == g * group + group) by (nonlinear_arith);
        proof {
            g = g + 1;
        }
        oc_base += n_oc;
    }
    proof {
        assert(c_out <= g * group);
        let d = c_out + group - 1 - g * group;
        assert(0 <= d < group) by (nonlinear_arith)
            requires
                c_out <= g * group,
                g == 0 || (g - 1) * group < c_out,
                0 <= g,
                0 < group,
                0 <= c_out,
                d == c_out + group - 1 - g * group,
        ;
        vstd::arithmetic::div_mod::lemma_fundamental_div_mod_converse(
            c_out + group - 1,
            group as int,
            g,
            d,
        );
    }
    r
}

impl<'a, T> ConvCall<'a, T> {
    /// `v` holds the first elements of the whole convolution.
    spec fn begun<A: Arith<T>>(self, ops: &A, v: Seq<T>) -> bool {
        forall|i: int|
            0 <= i < v.len() ==> self.value(
                ops,
                (i / self.w as int) / self.h as int,
                (i / self.w as int) % self.h as int,
                i % self.w as int,
                #[trigger] v[i],
            )
    }

    /// Appending the rows of channel `oc` from row `y0` on, where they belong.
    proof fn lemma_append_rows<A: Arith<T>>(
        self,
        ops: &A,
        oc: int,
        y0: int,
        rows: int,
        v: Seq<T>,
        part: Seq<T>,
    )
        requires
            self.wf(),
            0 <= oc,
            0 <= y0,
            0 <= rows,
            y0 + rows <= self.h,
            v.len() == (oc * self.h + y0) * self.w,
            part.len() == rows * self.w,
            self.begun(ops, v),
            self.rows_of(ops, oc, y0, part),
        ensures
            self.begun(ops, v + part),
            (v + part).len() == (oc * self.h + y0 + rows) * self.w,
    {
        let (h, w) = (self.h as int, self.w as int);
        let all = v + part;
        assert((oc * h + y0 + rows) * w == (oc * h + y0) * w + rows * w) by (nonlinear_arith);
        assert forall|i: int| 0 <= i < all.len() implies self.value(
            ops,
            (i / w) / h,
            (i / w) % h,
            i % w,
            #[trigger] all[i],
        ) by {
            if i < v.len() {
                assert(all[i] == v[i]);
            } else {
                let t = i - v.len();
                let (q, r) = (t / w, t % w);
                vstd::arithmetic::div_mod::lemma_fundamental_div_mod(t, w);
                assert(0 <= q < rows) by (nonlinear_arith)
                    requires
                        0 <= t < rows * w,
                        0 < w,
                        q == t / w,
                ;
                assert((oc * h + y0 + q) * w + r == i) by (nonlinear_arith)
                    requires
                        i == (oc * h + y0) * w + t,
                        t == w * q + r,
                ;
                lemma_quot_rem(oc * h + y0 + q, w, r);
                lemma_quot_rem(oc, h, y0 + q);
                assert(all[i] == part[t]);
            }
        }
    }
}

impl<'a, T: Copy + Send + Sync> ConvCall<'a, T> {
    /// The whole convolution, `group` output channels at a time, on a pool of
    /// `nthreads` threads. What an element is depends on neither.
    pub fn values<A: Arith<T> + Sync>(&self, ops: &A, nthreads: usize, group: usize) -> (out: Vec<
        T,
    >)
        requires
            self.wf(),
            4 * nthreads <= usize::MAX,
            0 < group,
        ensures
            self.taps().plane(
                ops,
                self.conv.c_out as int,
                self.act,
                self.res_view(),
                out@,
            ),
    {
        let (c_out, h, w) = (self.conv.c_out, self.h, self.w);
        let nband = band_count(nthreads, c_out, h);
        let rows = h / nband;
        proof {
            vstd::arithmetic::div_mod::lemma_fundamental_div_mod(h as int, nband as int);
            assert(nband * rows == h);
        }
        let tasks = band_tasks(c_out, group, nband, rows);
        let call = self;
        let ghost ngroups = (c_out + group - 1) / (group as int);
        proof {
            assert forall|i: int| 0 <= i < tasks@.len() implies call.has_task(#[trigger] tasks@[i]) by {
                assert(tasks@[i] == task_at(
                    c_out as int,
                    group as int,
                    nband as int,
                    rows as int,
                    i,
                ));
                lemma_task(c_out as int, group as int, nband as int, rows as int, i);
            }
        }
        let work = |t: &BandTask| -> (r: Vec<Vec<T>>)
            requires
                call.wf(),
                call.has_task(*t),
            ensures
                call.band(ops, *t, r@),
            { call.conv_band(ops, t) };
        let done: Vec<Vec<Vec<T>>> = par_map(&tasks, work);
        let mut out: Vec<T> = Vec::new();
        let mut oc: usize = 0;
        assert(0 * h * w == 0) by (nonlinear_arith);
        while oc < c_out
            invariant
                self.wf(),
                (c_out, h, w) == (self.conv.c_out, self.h, self.w),
                0 < group,
                0 < nband,
                nband * rows == h,
                ngroups == (c_out + group - 1) / (group as int),
                tasks@.len() == ngroups * nband,
                done@.len() == tasks@.len(),
                forall|i: int|
                    0 <= i < tasks@.len() ==> #[trigger] tasks@[i] == task_at(
                        c_out as int,
                        group as int,
                        nband as int,
                        rows as int,
                        i,
                    ),
                forall|i: int|
                    0 <= i < done@.len() ==> self.band(ops, tasks@[i], #[trigger] done@[i]@),
                oc <= c_out,
                out@.len() == oc * h * w,
                self.begun(ops, out@),
            decreases c_out - oc,
        {
            let (g, o) = (oc / group, oc % group);
            let mut bi: usize = 0;
            proof {
                vstd::arithmetic::div_mod::lemma_fundamental_div_mod(oc as int, group as int);
                assert(group * g == g * group) by (nonlinear_arith);
                assert(0 <= g < ngroups) by {
                    vstd::arithmetic::div_mod::lemma_fundamental_div_mod(
                        c_out + group - 1,
                        group as int,
                    );
                    assert(g < ngroups) by (nonlinear_arith)
                        requires
                            g * group <= oc < c_out,
                            c_out + group - 1 < group * ngroups + group,
                            0 < group,
                    ;
                }
                assert((oc * h + 0) * w == oc * h * w);
            }
            while bi < nband
                invariant
                    self.wf(),
                    (c_out, h, w) == (self.conv.c_out, self.h, self.w),
                    0 < group,
                    0 < nband,
                    nband * rows == h,
                    ngroups == (c_out + group - 1) / (group as int),
                    tasks@.len() == ngroups * nband,
                    done@.len() == tasks@.len(),
                    forall|i: int|
                        0 <= i < tasks@.len() ==> #[trigger] tasks@[i] == task_at(
                            c_out as int,
                            group as int,
                            nband as int,
                            rows as int,
                            i,
                        ),
                    forall|i: int|
                        0 <= i < done@.len() ==> self.band(ops, tasks@[i], #[trigger] done@[i]@),
                    oc < c_out,
                    oc == g * group + o,
                    o < group,
                    0 <= g < ngroups,
                    bi <= nband,
                    out@.len() == (oc * h + bi * rows) * w,
                    self.begun(ops, out@),
                decreases nband - bi,
            {
                let ghost i = g * nband + bi;
                proof {
                    assert(0 <= g * nband <= i < ngroups * nband) by (nonlinear_arith)
                        requires
                            0 <= g < ngroups,
                            0 <= bi < nband,
                            i == g * nband + bi,
                    ;
                    assert(tasks.len() == tasks@.len());
                    lemma_task(c_out as int, group as int, nband as int, rows as int, i);
                    lemma_quot_rem(g as int, nband as int, bi as int);
                    assert(tasks@[i] == task_at(
                        c_out as int,
                        group as int,
                        nband as int,
                        rows as int,
                        i,
                    ));
                    assert(self.band(ops, tasks@[i], done@[i]@));
                    assert(done@[i]@[o as int]@.len() == rows * w);
                    assert(bi * rows + rows <= h) by (nonlinear_arith)
                        requires
                            bi < nband,
                            nband * rows == h,
                    ;
                    assert(0 <= bi * rows) by (nonlinear_arith);
                    self.lemma_append_rows(
                        ops,
                        oc as int,
                        bi * rows,
                        rows as int,
                        out@,
                        done@[i]@[o as int]@,
                    );
                    assert((bi + 1) * rows == bi * rows + rows) by (nonlinear_arith);
                }
                let part = &done[g * nband + bi][o];
                let n = part.len();
                append_range(&mut out, part.as_slice(), 0, n);
                assert(part@.subrange(0, n as int) =~= part@);
                bi += 1;
            }
            oc += 1;
            assert(((oc - 1) * h + h) * w == oc * h * w) by (nonlinear_arith);
        }
        proof {
            let t = self.taps();
            assert forall|oc: int, y: int, x: int|
                0 <= oc < c_out && 0 <= y < t.h && 0 <= x < t.w implies t.value(
                ops,
                self.act,
                self.res_view(),
                oc,
                y,
                x,
                #[trigger] out@[cell(t.h, t.w, oc, y, x)],
            ) by {
                lemma_cell(c_out as int, t.h, t.w, oc, y, x);
            }
        }
        out
    }
}

/// A task lies inside its convolution.
proof fn lemma_task(c_out: int, group: int, nband: int, rows: int, i: int)
    requires
        0 < group,
        0 < nband,
        0 <= rows,
        0 <= c_out <= usize::MAX,
        nband * rows <= usize::MAX,
        0 <= i < ((c_out + group - 1) / group) * nband,
    ensures
        ({
            let t = task_at(c_out, group, nband, rows, i);
            let g = i / nband;
            &&& t.oc_base == g * group
            &&& t.oc_base + t.n_oc <= c_out
            &&& t.n_oc == if group < c_out - g * group {
                group
            } else {
                c_out - g * group
            }
            &&& t.y0 == (i % nband) * rows
            &&& t.rows == rows
            &&& t.y0 + t.rows <= nband * rows
        }),
{
    let g = i / nband;
    let b = i % nband;
    vstd::arithmetic::div_mod::lemma_fundamental_div_mod(i, nband);
    vstd::arithmetic::div_mod::lemma_fundamental_div_mod(c_out + group - 1, group);
    let ng = (c_out + group - 1) / group;
    assert(0 <= g < ng) by (nonlinear_arith)
        requires
            0 <= i < ng * nband,
            0 < nband,
            g == i / nband,
    ;
    assert(0 <= g * group < c_out) by (nonlinear_arith)
        requires
            0 <= g < ng,
            group * ng <= c_out + group - 1,
            0 < group,
    ;
    assert(0 <= b * rows && b * rows + rows <= nband * rows) by (nonlinear_arith)
        requires
            0 <= b < nband,
            0 <= rows,
    ;
    assert(rows <= nband * rows) by (nonlinear_arith)
        requires
            1 <= nband,
            0 <= rows,
    ;
}

/// 3x3, stride 1, pad 1, reading the first `c_in` channels of `src` (which may be
/// a wider workspace) and writing the first `conv.c_out` channels of `dst`.
///
/// `res` adds `factor * operand` after the optional activation. The blocking and
/// the number of threads do not show in the result.
pub fn conv3x3_prefix<T: Copy + Send + Sync, A: Arith<T> + Sync>(
    ops: &A,
    src: &[T],
    c_in: usize,
    dst: &mut [T],
    conv: &Conv<T>,
    h: usize,
    w: usize,
    act: bool,
    res: Option<(&[T], T)>,
    run: &mut HostRun,
)
    requires
        (ConvCall { src, c_in, conv, h, w, act, res }).wf(),
        conv.c_out * h * w <= old(dst)@.len(),
    ensures
        final(dst)@.len() == old(dst)@.len(),
        (ConvCall { src, c_in, conv, h, w, act, res }).taps().plane(
            ops,
            conv.c_out as int,
            act,
            (ConvCall { src, c_in, conv, h, w, act, res }).res_view(),
            final(dst)@.take(conv.c_out * h * w),
        ),
        forall|i: int|
            conv.c_out * h * w <= i < final(dst)@.len() ==> final(dst)@[i] == old(dst)@[i],
        old(run).ran(seq![ConvKey { c_in, c_out: conv.c_out, h, w, act }], *final(run)),
{
    let out = conv3x3_run(ops, src, c_in, conv, h, w, act, res, run);
    write_at(dst, 0, out.as_slice());
    assert(dst@.take(conv.c_out * h * w) =~= out@);
}

/// The convolution of `conv3x3_prefix`, as fresh values.
pub(crate) fn conv3x3_run<T: Copy + Send + Sync, A: Arith<T> + Sync>(
    ops: &A,
    src: &[T],
    c_in: usize,
    conv: &Conv<T>,
    h: usize,
    w: usize,
    act: bool,
    res: Option<(&[T], T)>,
    run: &mut HostRun,
) -> (out: Vec<T>)
    requires
        (ConvCall { src, c_in, conv, h, w, act, res }).wf(),
    ensures
        (ConvCall { src, c_in, conv, h, w, act, res }).taps().plane(
            ops,
            conv.c_out as int,
            act,
            (ConvCall { src, c_in, conv, h, w, act, res }).res_view(),
            out@,
        ),
        old(run).ran(seq![ConvKey { c_in, c_out: conv.c_out, h, w, act }], *final(run)),
{
    let call = ConvCall { src, c_in, conv, h, w, act, res };
    let start = clock_now();
    let threads = pool_threads();
    let nthreads = if threads < 1 {
        1
    } else {
        threads
    };
    let out = call.values(ops, nthreads, oc_group(run.oc));
    if run.profiling {
        let key = ConvKey { c_in, c_out: conv.c_out, h, w, act };
        run.timings.push(ConvTiming { key, nanos: nanos_since(&start) });
        assert(run.timed() =~= old(run).timed() + seq![key]);
    }
    out
}

/// The host's 3x3 convolution, for comparison with a device's.
pub fn conv3x3_prefix_pub<T: Copy + Send + Sync, A: Arith<T> + Sync>(
    ops: &A,
    src: &[T],
    c_in: usize,
    dst: &mut [T],
    conv: &Conv<T>,
    h: usize,
    w: usize,
    act: bool,
    res: Option<(&[T], T)>,
    run: &mut HostRun,
)
    requires
        (ConvCall { src, c_in, conv, h, w, act, res }).wf(),
        conv.c_out * h * w <= old(dst)@.len(),
    ensures
        final(dst)@.len() == old(dst)@.len(),
        (ConvCall { src, c_in, conv, h, w, act, res }).taps().plane(
            ops,
            conv.c_out as int,
            act,
            (ConvCall { src, c_in, conv, h, w, act, res }).res_view(),
            final(dst)@.take(conv.c_out * h * w),
        ),
        forall|i: int|
            conv.c_out * h * w <= i < final(dst)@.len() ==> final(dst)@[i] == old(dst)@[i],
        old(run).ran(seq![ConvKey { c_in, c_out: conv.c_out, h, w, act }], *final(run)),
{
    conv3x3_prefix(ops, src, c_in, dst, conv, h, w, act, res, run);
}

} // verus!
