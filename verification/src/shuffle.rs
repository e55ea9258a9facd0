//! The network's two rearrangements of pixels.

use vstd::prelude::*;

use crate::grid::cell;
use crate::grid::lemma_cell;
use crate::grid::lemma_uncell;
use crate::plane::Plane;

verus! {

/// `c` channels of `h` by `w` values, each value doubled in both directions.
pub open spec fn upsampled<T>(v: Seq<T>, c: int, h: int, w: int) -> Seq<T> {
    Seq::new(
        (c * (h * 2) * (w * 2)) as nat,
        |i: int|
            {
                let (ch, y, x) = ((i / (w * 2)) / (h * 2), (i / (w * 2)) % (h * 2), i % (w * 2));
                v[cell(h, w, ch, y / 2, x / 2)]
            },
    )
}

/// `c` channels of `h` by `w` values, each 2x2 block turned into four channels:
/// channel `4 c + 2 dy + dx` holds the values at the odd (`1`) or even (`0`) rows
/// `dy` and columns `dx`.
pub open spec fn unshuffled<T>(v: Seq<T>, c: int, h: int, w: int) -> Seq<T> {
    Seq::new(
        (c * 4 * (h / 2) * (w / 2)) as nat,
        |i: int|
            {
                let (oc, y, x) = ((i / (w / 2)) / (h / 2), (i / (w / 2)) % (h / 2), i % (w / 2));
                v[cell(h, w, oc / 4, 2 * y + (oc % 4) / 2, 2 * x + oc % 2)]
            },
    )
}

/// Nearest-neighbour 2x upsample: row `y` reads row `y / 2`, and columns alike.
pub fn upsample2x_nearest<T: Copy>(inp: &Plane<T>) -> (r: Plane<T>)
    requires
        inp.wf(),
        inp.h * 2 <= usize::MAX,
        inp.w * 2 <= usize::MAX,
        inp.c * (inp.h * 2) * (inp.w * 2) <= usize::MAX,
    ensures
        r.wf(),
        r.c == inp.c,
        r.h == inp.h * 2,
        r.w == inp.w * 2,
        r.data@ == upsampled(inp.data@, inp.c as int, inp.h as int, inp.w as int),
        forall|c: int, y: int, x: int|
            r.has(c, y, x) ==> #[trigger] r.px(c, y, x) == inp.px(c, y / 2, x / 2),
{
    let (oh, ow) = (inp.h * 2, inp.w * 2);
    let at = |c: usize, y: usize, x: usize| -> (v: T)
        requires
            inp.wf(),
            c < inp.c,
            y < inp.h * 2,
            x < inp.w * 2,
        ensures
            v == inp.px(c as int, y as int / 2, x as int / 2),
        { inp.get(c, y / 2, x / 2) };
    let r = Plane::from_fn(inp.c, oh, ow, at);
    proof {
        assert forall|i: int| 0 <= i < r.data@.len() implies #[trigger] r.data@[i] == upsampled(
            inp.data@,
            inp.c as int,
            inp.h as int,
            inp.w as int,
        )[i] by {
            lemma_uncell(r.c as int, r.h as int, r.w as int, i);
            let (h, w) = (r.h as int, r.w as int);
            assert(r.data@[i] == r.px((i / w) / h, (i / w) % h, i % w));
        }
        assert(r.data@ =~= upsampled(inp.data@, inp.c as int, inp.h as int, inp.w as int));
    }
    r
}

/// `pixel_unshuffle(2)`: `[c][h][w]` to `[c * 4][h / 2][w / 2]`, the output
/// channel being `c * 4 + dy * 2 + dx`.
pub fn pixel_unshuffle2<T: Copy>(inp: &Plane<T>) -> (r: Plane<T>)
    requires
        inp.wf(),
        inp.c * 4 <= usize::MAX,
        inp.c * 4 * (inp.h as int / 2) * (inp.w as int / 2) <= usize::MAX,
    ensures
        r.wf(),
        r.c == inp.c * 4,
        r.h == inp.h / 2,
        r.w == inp.w / 2,
        r.data@ == unshuffled(inp.data@, inp.c as int, inp.h as int, inp.w as int),
        forall|c: int, dy: int, dx: int, y: int, x: int|
            0 <= c < inp.c && 0 <= dy < 2 && 0 <= dx < 2 && 0 <= y < r.h && 0 <= x < r.w
                ==> #[trigger] r.px(c * 4 + dy * 2 + dx, y, x) == inp.px(c, 2 * y + dy, 2 * x + dx),
{
    let (oh, ow) = (inp.h / 2, inp.w / 2);
    let at = |oc: usize, y: usize, x: usize| -> (v: T)
        requires
            inp.wf(),
            oc < inp.c * 4,
            y < inp.h / 2,
            x < inp.w / 2,
        ensures
            v == inp.px(oc as int / 4, 2 * y + (oc as int % 4) / 2, 2 * x + oc as int % 2),
        {
            let (dy, dx) = ((oc % 4) / 2, oc % 2);
            inp.get(oc / 4, 2 * y + dy, 2 * x + dx)
        };
    let r = Plane::from_fn(inp.c * 4, oh, ow, at);
    proof {
        assert forall|i: int| 0 <= i < r.data@.len() implies #[trigger] r.data@[i] == unshuffled(
            inp.data@,
            inp.c as int,
            inp.h as int,
            inp.w as int,
        )[i] by {
            lemma_uncell(r.c as int, r.h as int, r.w as int, i);
            let (h, w) = (r.h as int, r.w as int);
            assert(r.data@[i] == r.px((i / w) / h, (i / w) % h, i % w));
        }
        assert(r.data@ =~= unshuffled(inp.data@, inp.c as int, inp.h as int, inp.w as int));
        assert forall|c: int, dy: int, dx: int, y: int, x: int|
            0 <= c < inp.c && 0 <= dy < 2 && 0 <= dx < 2 && 0 <= y < r.h && 0 <= x
                < r.w implies #[trigger] r.px(c * 4 + dy * 2 + dx, y, x) == inp.px(
            c,
            2 * y + dy,
            2 * x + dx,
        ) by {
            let oc = c * 4 + dy * 2 + dx;
            assert(oc / 4 == c && (oc % 4) / 2 == dy && oc % 2 == dx);
        }
    }
    r
}

/// Unshuffling undoes upsampling: each of the four channels it makes of an
/// upsampled channel is the channel itself.
pub proof fn unshuffle_undoes_upsample<T>(
    v: Seq<T>,
    c: int,
    h: int,
    w: int,
    k: int,
    ch: int,
    y: int,
    x: int,
)
    requires
        v.len() == c * h * w,
        0 <= k < 4,
        0 <= ch < c,
        0 <= y < h,
        0 <= x < w,
    ensures
        unshuffled(upsampled(v, c, h, w), c, h * 2, w * 2)[cell(h, w, ch * 4 + k, y, x)] == v[cell(
            h,
            w,
            ch,
            y,
            x,
        )],
{
    let oc = ch * 4 + k;
    lemma_cell(c * 4, h, w, oc, y, x);
    let (dy, dx) = (k / 2, k % 2);
    let (yy, xx) = (2 * y + dy, 2 * x + dx);
    lemma_cell(c, h * 2, w * 2, ch, yy, xx);
    assert(oc / 4 == ch && (oc % 4) / 2 == dy && oc % 2 == dx);
    assert(yy / 2 == y && xx / 2 == x);
    assert((h * 2) / 2 == h && (w * 2) / 2 == w);
}

} // verus!
