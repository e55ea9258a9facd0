//! Resampling, spelled out: which values make a pixel, and with which weights.

use vstd::prelude::*;

use crate::grid::cell;
use crate::grid::lemma_cell;
use crate::grid::lemma_uncell;
use crate::image::Image;
use crate::resize::column;
use crate::resize::columns_resampled;
use crate::resize::quotient_is;
use crate::resize::row;
use crate::resize::rows_resampled;
use crate::resize::window_is;
use crate::resize::window_size;
use crate::resize::Filter;
use crate::resize::Line;

verus! {

/// The steps of one resampled value: the window from `lo` to `hi`, the weights of its
/// positions, and the two sums before each position and behind the last.
pub struct Steps<W> {
    pub lo: isize,
    pub hi: isize,
    pub weights: Seq<W>,
    pub accs: Seq<W>,
    pub norms: Seq<W>,
}

proof fn lemma_steps<T, W, F: Filter<T, W>>(
    ops: &F,
    line: Line<T>,
    x: usize,
    n_out: usize,
    lo: isize,
    hi: isize,
    n: nat,
    acc: W,
    norm: W,
) -> (s: Steps<W>)
    requires
        line.summed(ops, x, n_out, lo, n, acc, norm),
        n == 0 || lo + n - 1 <= hi,
    ensures
        s.lo == lo,
        s.hi == hi,
        s.weights.len() == n,
        s.accs.len() == n + 1,
        s.norms.len() == n + 1,
        s.accs[n as int] == acc,
        s.norms[n as int] == norm,
        call_ensures(<F as Filter<T, W>>::nothing, (ops,), s.accs[0]),
        call_ensures(<F as Filter<T, W>>::nothing, (ops,), s.norms[0]),
        forall|j: int|
            0 <= j < n ==> {
                &&& call_ensures(
                    <F as Filter<T, W>>::weight,
                    (ops, x, line.n as usize, n_out, (lo + j) as isize),
                    #[trigger] s.weights[j],
                )
                &&& call_ensures(
                    <F as Filter<T, W>>::count,
                    (ops, s.norms[j], s.weights[j]),
                    s.norms[j + 1],
                )
                &&& call_ensures(
                    <F as Filter<T, W>>::blend,
                    (
                        ops,
                        s.accs[j],
                        s.weights[j],
                        line.data[line.base + (if lo + j < 0 {
                            0
                        } else if lo + j >= line.n {
                            line.n - 1
                        } else {
                            lo + j
                        }) * line.stride],
                    ),
                    s.accs[j + 1],
                )
            },
    decreases n,
{
    if n == 0 {
        Steps { lo, hi, weights: Seq::empty(), accs: seq![acc], norms: seq![norm] }
    } else {
        let (a, m, k) = choose|a: W, m: W, k: W|
            {
                &&& line.summed(ops, x, n_out, lo, (n - 1) as nat, a, m)
                &&& #[trigger] line.takes(ops, x, n_out, lo + n - 1, k, a, m, acc, norm)
            };
        let p = lemma_steps(ops, line, x, n_out, lo, hi, (n - 1) as nat, a, m);
        let s = Steps {
            lo,
            hi,
            weights: p.weights.push(k),
            accs: p.accs.push(acc),
            norms: p.norms.push(norm),
        };
        assert forall|j: int| 0 <= j < n implies {
            &&& call_ensures(
                <F as Filter<T, W>>::weight,
                (ops, x, line.n as usize, n_out, (lo + j) as isize),
                #[trigger] s.weights[j],
            )
            &&& call_ensures(
                <F as Filter<T, W>>::count,
                (ops, s.norms[j], s.weights[j]),
                s.norms[j + 1],
            )
            &&& call_ensures(
                <F as Filter<T, W>>::blend,
                (
                    ops,
                    s.accs[j],
                    s.weights[j],
                    line.data[line.base + (if lo + j < 0 {
                        0
                    } else if lo + j >= line.n {
                        line.n - 1
                    } else {
                        lo + j
                    }) * line.stride],
                ),
                s.accs[j + 1],
            )
        } by {
            if j < n - 1 {
                assert(s.weights[j] == p.weights[j]);
                assert(s.accs[j] == p.accs[j] && s.accs[j + 1] == p.accs[j + 1]);
                assert(s.norms[j] == p.norms[j] && s.norms[j + 1] == p.norms[j + 1]);
            }
        }
        s
    }
}

/// Value `x` of a resampled row is the quotient of two sums over its window, the
/// positions taken from left to right: of the weights, and of the weighted values of
/// the image's row. Before the row its first value is taken, and behind it its last.
pub proof fn row_is_its_window<T, W, F: Filter<T, W>>(
    ops: &F,
    src: Image<T>,
    w: usize,
    mid: Seq<T>,
    c: int,
    y: int,
    x: usize,
) -> (s: Steps<W>)
    requires
        rows_resampled(ops, src, w, mid),
        0 <= c < 3,
        0 <= y < src.h,
        x < w,
    ensures
        ({
            let n = if s.lo <= s.hi {
                s.hi - s.lo + 1
            } else {
                0
            };
            &&& call_ensures(<F as Filter<T, W>>::window, (ops, x, src.w, w), (s.lo, s.hi))
            &&& call_ensures(<F as Filter<T, W>>::nothing, (ops,), s.accs[0])
            &&& call_ensures(<F as Filter<T, W>>::nothing, (ops,), s.norms[0])
            &&& forall|j: int|
                0 <= j < n ==> {
                    let i = s.lo + j;
                    &&& call_ensures(
                        <F as Filter<T, W>>::weight,
                        (ops, x, src.w, w, i as isize),
                        #[trigger] s.weights[j],
                    )
                    &&& call_ensures(
                        <F as Filter<T, W>>::count,
                        (ops, s.norms[j], s.weights[j]),
                        s.norms[j + 1],
                    )
                    &&& call_ensures(
                        <F as Filter<T, W>>::blend,
                        (
                            ops,
                            s.accs[j],
                            s.weights[j],
                            src.data@[(c * src.h + y) * src.w + if i < 0 {
                                0
                            } else if i >= src.w {
                                src.w - 1
                            } else {
                                i
                            }],
                        ),
                        s.accs[j + 1],
                    )
                }
            &&& call_ensures(
                <F as Filter<T, W>>::quotient,
                (ops, s.accs[n], s.norms[n]),
                mid[(c * src.h + y) * w + x],
            )
        }),
{
    let line = row(src.data@, src.h as int, src.w as int, c, y);
    let r = mid[cell(src.h as int, w as int, c, y, x as int)];
    assert(line.resampled(ops, x, w, r));
    let (lo, hi, acc, norm) = choose|lo: isize, hi: isize, acc: W, norm: W|
        {
            &&& window_is(ops, x, line.n as usize, w, (lo, hi))
            &&& #[trigger] line.summed(ops, x, w, lo, window_size(lo, hi), acc, norm)
            &&& quotient_is(ops, acc, norm, r)
        };
    lemma_steps(ops, line, x, w, lo, hi, window_size(lo, hi), acc, norm)
}

/// Value `y` of a resampled column is made in the same way of the column of `mid`,
/// from top to bottom.
pub proof fn column_is_its_window<T, W, F: Filter<T, W>>(
    ops: &F,
    mid: Seq<T>,
    mh: usize,
    w: usize,
    h: usize,
    out: Seq<T>,
    c: int,
    y: usize,
    x: int,
) -> (s: Steps<W>)
    requires
        columns_resampled(ops, mid, mh as int, w, h, out),
        0 <= c < 3,
        y < h,
        0 <= x < w,
    ensures
        ({
            let n = if s.lo <= s.hi {
                s.hi - s.lo + 1
            } else {
                0
            };
            &&& call_ensures(<F as Filter<T, W>>::window, (ops, y, mh, h), (s.lo, s.hi))
            &&& call_ensures(<F as Filter<T, W>>::nothing, (ops,), s.accs[0])
            &&& call_ensures(<F as Filter<T, W>>::nothing, (ops,), s.norms[0])
            &&& forall|j: int|
                0 <= j < n ==> {
                    let i = s.lo + j;
                    &&& call_ensures(
                        <F as Filter<T, W>>::weight,
                        (ops, y, mh, h, i as isize),
                        #[trigger] s.weights[j],
                    )
                    &&& call_ensures(
                        <F as Filter<T, W>>::count,
                        (ops, s.norms[j], s.weights[j]),
                        s.norms[j + 1],
                    )
                    &&& call_ensures(
                        <F as Filter<T, W>>::blend,
                        (
                            ops,
                            s.accs[j],
                            s.weights[j],
                            mid[(c * mh + if i < 0 {
                                0
                            } else if i >= mh {
                                mh - 1
                            } else {
                                i
                            }) * w + x],
                        ),
                        s.accs[j + 1],
                    )
                }
            &&& call_ensures(
                <F as Filter<T, W>>::quotient,
                (ops, s.accs[n], s.norms[n]),
                out[(c * h + y) * w + x],
            )
        }),
{
    let line = column(mid, mh as int, w as int, c, x);
    let r = out[cell(h as int, w as int, c, y as int, x)];
    assert(line.resampled(ops, y, h, r));
    let (lo, hi, acc, norm) = choose|lo: isize, hi: isize, acc: W, norm: W|
        {
            &&& window_is(ops, y, line.n as usize, h, (lo, hi))
            &&& #[trigger] line.summed(ops, y, h, lo, window_size(lo, hi), acc, norm)
            &&& quotient_is(ops, acc, norm, r)
        };
    let s = lemma_steps(ops, line, y, h, lo, hi, window_size(lo, hi), acc, norm);
    assert forall|j: int| 0 <= j < window_size(lo, hi) implies call_ensures(
        <F as Filter<T, W>>::blend,
        (
            ops,
            s.accs[j],
            #[trigger] s.weights[j],
            mid[(c * mh + if s.lo + j < 0 {
                0
            } else if s.lo + j >= mh {
                mh - 1
            } else {
                s.lo + j
            }) * w + x],
        ),
        s.accs[j + 1],
    ) by {
        let i = if s.lo + j < 0 {
            0
        } else if s.lo + j >= mh {
            mh - 1
        } else {
            s.lo + j
        };
        assert((c * mh + i) * w + x == cell(mh as int, w as int, c, 0, x) + i * w)
            by (nonlinear_arith)
            requires
                cell(mh as int, w as int, c, 0, x) == (c * mh + 0) * w + x,
        ;
    }
    s
}

/// A filter that takes every value for itself leaves the image as it is.
pub proof fn taking_each_value_alone_changes_nothing<T, W, F: Filter<T, W>>(
    ops: &F,
    src: Image<T>,
    mid: Seq<T>,
    out: Seq<T>,
)
    requires
        src.wf(),
        0 < src.w <= isize::MAX,
        0 < src.h <= isize::MAX,
        forall|x: usize, n: usize, r: (isize, isize)|
            #[trigger] call_ensures(<F as Filter<T, W>>::window, (ops, x, n, n), r) ==> r.0 == x
                && r.1 == x,
        forall|z: W, k: W, a: W, v: T, acc: W, norm: W, q: T|
            {
                &&& #[trigger] call_ensures(<F as Filter<T, W>>::count, (ops, z, k), norm)
                &&& #[trigger] call_ensures(<F as Filter<T, W>>::blend, (ops, a, k, v), acc)
                &&& #[trigger] call_ensures(<F as Filter<T, W>>::quotient, (ops, acc, norm), q)
                &&& call_ensures(<F as Filter<T, W>>::nothing, (ops,), z)
                &&& call_ensures(<F as Filter<T, W>>::nothing, (ops,), a)
            } ==> q == v,
        rows_resampled(ops, src, src.w, mid),
        columns_resampled(ops, mid, src.h as int, src.w, src.h, out),
    ensures
        out == src.data@,
{
    let (h, w) = (src.h as int, src.w as int);
    assert(3 * w * h == 3 * h * w) by (nonlinear_arith);
    assert forall|i: int| 0 <= i < out.len() implies out[i] == src.data@[i] by {
        lemma_uncell(3, h, w, i);
        let (c, y, x) = ((i / w) / h, (i / w) % h, i % w);
        lemma_cell(3, h, w, c, y, x);
        let s = row_is_its_window(ops, src, src.w, mid, c, y, x as usize);
        assert(s.lo == x && s.hi == x);
        let (k, j) = (s.weights[0], 0int);
        assert(s.lo + j == x);
        assert(call_ensures(<F as Filter<T, W>>::count, (ops, s.norms[0], k), s.norms[1]));
        assert(call_ensures(
            <F as Filter<T, W>>::blend,
            (ops, s.accs[0], k, src.data@[(c * src.h + y) * src.w + x]),
            s.accs[1],
        ));
        assert(call_ensures(
            <F as Filter<T, W>>::quotient,
            (ops, s.accs[1], s.norms[1]),
            mid[(c * src.h + y) * src.w + x],
        ));
        assert(mid[i] == src.data@[i]);
        let t = column_is_its_window(ops, mid, src.h, src.w, src.h, out, c, y as usize, x);
        assert(t.lo == y && t.hi == y);
        let k = t.weights[0];
        assert(t.lo + j == y);
        assert(call_ensures(<F as Filter<T, W>>::count, (ops, t.norms[0], k), t.norms[1]));
        assert(call_ensures(
            <F as Filter<T, W>>::blend,
            (ops, t.accs[0], k, mid[(c * src.h + y) * src.w + x]),
            t.accs[1],
        ));
        assert(call_ensures(
            <F as Filter<T, W>>::quotient,
            (ops, t.accs[1], t.norms[1]),
            out[(c * src.h + y) * src.w + x],
        ));
    }
    assert(out =~= src.data@);
}

} // verus!
