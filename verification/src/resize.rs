//! Resampling to a final size.

use vstd::prelude::*;

use crate::grid::cell;
use crate::grid::lemma_cell;
use crate::image::Image;
use crate::plane::Plane;

verus! {

/// The arithmetic of the resampling filter: weights are of type `W`, which may be
/// wider than the values.
pub trait Filter<T, W> {
    /// The first and the last input position that output position `x` of `n_out`
    /// takes from a line of `n_in` values. They may lie outside the line.
    fn window(&self, x: usize, n_in: usize, n_out: usize) -> (isize, isize);

    /// The weight of input position `i` for output position `x`.
    fn weight(&self, x: usize, n_in: usize, n_out: usize, i: isize) -> W;

    /// The sum of nothing.
    fn nothing(&self) -> W;

    /// `norm + k`.
    fn count(&self, norm: W, k: W) -> W;

    /// `acc + k * v`.
    fn blend(&self, acc: W, k: W, v: T) -> W;

    /// `acc / norm`, as a value.
    fn quotient(&self, acc: W, norm: W) -> T;
}

/// The line of `n` values at `base`, `base + stride`, and so on.
pub struct Line<T> {
    pub data: Seq<T>,
    pub base: int,
    pub stride: int,
    pub n: int,
}

impl<T> Line<T> {
    /// The value at position `i`; before the first value it is the first, and
    /// behind the last it is the last.
    pub open spec fn at(self, i: int) -> T {
        let k = if i < 0 {
            0
        } else if i >= self.n {
            self.n - 1
        } else {
            i
        };
        self.data[self.base + k * self.stride]
    }

    /// `acc` and `norm` are the sums over the `n` positions from `lo` on, in
    /// order: of the weighted values, and of the weights.
    pub open spec fn summed<W, F: Filter<T, W>>(
        self,
        ops: &F,
        x: usize,
        n_out: usize,
        lo: isize,
        n: nat,
        acc: W,
        norm: W,
    ) -> bool
        decreases n,
    {
        if n == 0 {
            nothing_is(ops, acc) && nothing_is(ops, norm)
        } else {
            exists|a: W, m: W, k: W|
                {
                    &&& self.summed(ops, x, n_out, lo, (n - 1) as nat, a, m)
                    &&& #[trigger] self.takes(ops, x, n_out, lo + n - 1, k, a, m, acc, norm)
                }
        }
    }

    /// Position `i` is taken, with weight `k`.
    pub open spec fn takes<W, F: Filter<T, W>>(
        self,
        ops: &F,
        x: usize,
        n_out: usize,
        i: int,
        k: W,
        a: W,
        m: W,
        acc: W,
        norm: W,
    ) -> bool {
        &&& weight_is(ops, x, self.n as usize, n_out, i as isize, k)
        &&& count_is(ops, m, k, norm)
        &&& blend_is(ops, a, k, self.at(i), acc)
    }

    /// `r` is output position `x` of `n_out`: the weighted mean over the window.
    pub open spec fn resampled<W, F: Filter<T, W>>(
        self,
        ops: &F,
        x: usize,
        n_out: usize,
        r: T,
    ) -> bool {
        exists|lo: isize, hi: isize, acc: W, norm: W|
            {
                &&& window_is(ops, x, self.n as usize, n_out, (lo, hi))
                &&& #[trigger] self.summed(ops, x, n_out, lo, window_size(lo, hi), acc, norm)
                &&& quotient_is(ops, acc, norm, r)
            }
    }
}

/// Positions from `lo` to `hi`, both counted.
pub open spec fn window_size(lo: isize, hi: isize) -> nat {
    if lo <= hi {
        (hi - lo + 1) as nat
    } else {
        0
    }
}

pub open spec fn window_is<T, W, F: Filter<T, W>>(
    ops: &F,
    x: usize,
    n_in: usize,
    n_out: usize,
    r: (isize, isize),
) -> bool {
    call_ensures(<F as Filter<T, W>>::window, (ops, x, n_in, n_out), r)
}

pub open spec fn weight_is<T, W, F: Filter<T, W>>(
    ops: &F,
    x: usize,
    n_in: usize,
    n_out: usize,
    i: isize,
    r: W,
) -> bool {
    call_ensures(<F as Filter<T, W>>::weight, (ops, x, n_in, n_out, i), r)
}

pub open spec fn nothing_is<T, W, F: Filter<T, W>>(ops: &F, r: W) -> bool {
    call_ensures(<F as Filter<T, W>>::nothing, (ops,), r)
}

pub open spec fn count_is<T, W, F: Filter<T, W>>(ops: &F, norm: W, k: W, r: W) -> bool {
    call_ensures(<F as Filter<T, W>>::count, (ops, norm, k), r)
}

pub open spec fn blend_is<T, W, F: Filter<T, W>>(ops: &F, acc: W, k: W, v: T, r: W) -> bool {
    call_ensures(<F as Filter<T, W>>::blend, (ops, acc, k, v), r)
}

pub open spec fn quotient_is<T, W, F: Filter<T, W>>(ops: &F, acc: W, norm: W, r: T) -> bool {
    call_ensures(<F as Filter<T, W>>::quotient, (ops, acc, norm), r)
}

/// One output position of a line: the line's values stand at `base`,
/// `base + stride`, and so on.
fn resample<T: Copy, W: Copy, F: Filter<T, W>>(
    ops: &F,
    data: &[T],
    base: usize,
    stride: usize,
    n_in: usize,
    x: usize,
    n_out: usize,
) -> (r: T)
    requires
        0 < n_in,
        base + (n_in - 1) * stride < data@.len(),
    ensures
        (Line { data: data@, base: base as int, stride: stride as int, n: n_in as int }).resampled(
            ops,
            x,
            n_out,
            r,
        ),
{
    let ghost line = Line {
        data: data@,
        base: base as int,
        stride: stride as int,
        n: n_in as int,
    };
    let (lo, hi) = ops.window(x, n_in, n_out);
    assert(window_is(ops, x, line.n as usize, n_out, (lo, hi)));
    let mut acc = ops.nothing();
    let mut norm = ops.nothing();
    let mut i: isize = lo;
    let mut more = lo <= hi;
    assert(line.summed(ops, x, n_out, lo, 0, acc, norm));
    while more
        invariant
            0 < n_in,
            base + (n_in - 1) * stride < data@.len(),
            line == (Line { data: data@, base: base as int, stride: stride as int, n: n_in as int }),
            more ==> lo <= i <= hi && line.summed(
                ops,
                x,
                n_out,
                lo,
                (i - lo) as nat,
                acc,
                norm,
            ),
            !more ==> line.summed(ops, x, n_out, lo, window_size(lo, hi), acc, norm),
        decreases
                if more {
                    hi - i + 1
                } else {
                    0
                },
    {
        let k = ops.weight(x, n_in, n_out, i);
        let ghost (a, m) = (acc, norm);
        norm = ops.count(norm, k);
        let at: usize = if i < 0 {
            0
        } else if i as usize >= n_in {
            n_in - 1
        } else {
            i as usize
        };
        proof {
            let (at, last, stride) = (at as int, n_in - 1, stride as int);
            assert(0 <= at * stride <= last * stride) by (nonlinear_arith)
                requires
                    0 <= at <= last,
                    0 <= stride,
            ;
            assert(data.len() == data@.len());
        }
        acc = ops.blend(acc, k, data[base + at * stride]);
        proof {
            let n = (i - lo + 1) as nat;
            assert(lo + n - 1 == i);
            assert(line.at(i as int) == data@[base + at * stride]);
            assert(line.takes(ops, x, n_out, lo + n - 1, k, a, m, acc, norm));
            assert(line.summed(ops, x, n_out, lo, (n - 1) as nat, a, m));
            assert(line.summed(ops, x, n_out, lo, n, acc, norm));
        }
        if i == hi {
            more = false;
        } else {
            i += 1;
        }
    }
    let r = ops.quotient(acc, norm);
    assert(quotient_is(ops, acc, norm, r));
    r
}

/// Row `y` of channel `c` of planar data with `h` rows of `w` values.
pub open spec fn row<T>(data: Seq<T>, h: int, w: int, c: int, y: int) -> Line<T> {
    Line { data, base: cell(h, w, c, y, 0), stride: 1, n: w }
}

/// Column `x` of channel `c`.
pub open spec fn column<T>(data: Seq<T>, h: int, w: int, c: int, x: int) -> Line<T> {
    Line { data, base: cell(h, w, c, 0, x), stride: w, n: h }
}

/// `mid` is the image with every row resampled to `w` values.
pub open spec fn rows_resampled<T, W, F: Filter<T, W>>(
    ops: &F,
    src: Image<T>,
    w: usize,
    mid: Seq<T>,
) -> bool {
    &&& mid.len() == 3 * src.h * w
    &&& forall|c: int, y: int, x: int|
        0 <= c < 3 && 0 <= y < src.h && 0 <= x < w ==> row(
            src.data@,
            src.h as int,
            src.w as int,
            c,
            y,
        ).resampled(ops, x as usize, w, #[trigger] mid[cell(src.h as int, w as int, c, y, x)])
}

/// `out` is `mid`, which has `mh` rows of `w` values, with every column resampled
/// to `h` values.
pub open spec fn columns_resampled<T, W, F: Filter<T, W>>(
    ops: &F,
    mid: Seq<T>,
    mh: int,
    w: usize,
    h: usize,
    out: Seq<T>,
) -> bool {
    &&& out.len() == 3 * h * w
    &&& forall|c: int, y: int, x: int|
        0 <= c < 3 && 0 <= y < h && 0 <= x < w ==> column(mid, mh, w as int, c, x).resampled(
            ops,
            y as usize,
            h,
            #[trigger] out[cell(h as int, w as int, c, y, x)],
        )
}

/// Resamples an image to `w` by `h`: first along the rows, then along the
/// columns.
pub fn resize_lanczos<T: Copy, W: Copy, F: Filter<T, W>>(
    ops: &F,
    src: &Image<T>,
    w: usize,
    h: usize,
) -> (out: Image<T>)
    requires
        src.wf(),
        0 < src.w,
        0 < src.h,
        3 * src.h * w <= usize::MAX,
        3 * h * w <= usize::MAX,
    ensures
        out.w == w,
        out.h == h,
        out.wf(),
        exists|mid: Seq<T>|
            #[trigger] rows_resampled(ops, *src, w, mid) && columns_resampled(
                ops,
                mid,
                src.h as int,
                w,
                h,
                out.data@,
            ),
{
    let along = |c: usize, y: usize, x: usize| -> (v: T)
        requires
            src.wf(),
            0 < src.w,
            0 < src.h,
            c < 3,
            y < src.h,
        ensures
            row(src.data@, src.h as int, src.w as int, c as int, y as int).resampled(ops, x, w, v),
        {
            proof {
                lemma_cell(3, src.h as int, src.w as int, c as int, y as int, 0);
                lemma_cell(3, src.h as int, src.w as int, c as int, y as int, src.w - 1);
                lemma_rect(src.h as int, src.w as int);
                let (c, y, h, w) = (c as int, y as int, src.h as int, src.w as int);
                assert(c * h + y <= (c * h + y) * w && 0 <= c * h) by (nonlinear_arith)
                    requires
                        0 <= c,
                        0 <= y,
                        0 < h,
                        1 <= w,
                ;
                assert(src.data.len() == src.data@.len());
            }
            resample(ops, src.data.as_slice(), (c * src.h + y) * src.w, 1, src.w, x, w)
        };
    let mid = Plane::from_fn(3, src.h, w, along);
    assert(rows_resampled(ops, *src, w, mid.data@)) by {
        assert forall|c: int, y: int, x: int|
            0 <= c < 3 && 0 <= y < src.h && 0 <= x < w implies row(
            src.data@,
            src.h as int,
            src.w as int,
            c,
            y,
        ).resampled(
            ops,
            x as usize,
            w,
            #[trigger] mid.data@[cell(src.h as int, w as int, c, y, x)],
        ) by {
            assert(mid.px(c, y, x) == mid.data@[cell(src.h as int, w as int, c, y, x)]);
        }
    }
    let down = |c: usize, y: usize, x: usize| -> (v: T)
        requires
            mid.wf(),
            mid.c == 3,
            mid.w == w,
            0 < mid.h,
            c < 3,
            x < w,
        ensures
            column(mid.data@, mid.h as int, w as int, c as int, x as int).resampled(ops, y, h, v),
        {
            proof {
                lemma_cell(3, mid.h as int, w as int, c as int, 0, x as int);
                lemma_cell(3, mid.h as int, w as int, c as int, mid.h - 1, x as int);
                let (c, h, w) = (c as int, mid.h as int, w as int);
                assert(c * h <= c * h * w && 0 <= c * h) by (nonlinear_arith)
                    requires
                        0 <= c,
                        0 < h,
                        1 <= w,
                ;
                assert((c * h + (h - 1)) * w == c * h * w + (h - 1) * w) by (nonlinear_arith);
                assert(mid.data.len() == mid.data@.len());
            }
            resample(ops, mid.data.as_slice(), c * mid.h * w + x, w, mid.h, y, h)
        };
    let all = Plane::from_fn(3, h, w, down);
    assert(columns_resampled(ops, mid.data@, src.h as int, w, h, all.data@)) by {
        assert forall|c: int, y: int, x: int| 0 <= c < 3 && 0 <= y < h && 0 <= x < w implies column(
            mid.data@,
            src.h as int,
            w as int,
            c,
            x,
        ).resampled(ops, y as usize, h, #[trigger] all.data@[cell(h as int, w as int, c, y, x)]) by {
            assert(all.px(c, y, x) == all.data@[cell(h as int, w as int, c, y, x)]);
        }
    }
    proof {
        lemma_rect(h as int, w as int);
    }
    Image { w, h, data: all.data }
}

/// Rows and columns can be counted either way.
proof fn lemma_rect(h: int, w: int)
    ensures
        3 * h * w == 3 * w * h,
{
    assert(3 * h * w == 3 * w * h) by (nonlinear_arith);
}

} // verus!
