//! Tiling: an image whose activations do not fit on the device is run in tiles.
//!
//! Each tile is cropped from the image with some pixels of context on every side,
//! the network runs on that crop, and only the centre is pasted into the output.
//! At the image's border the crop shrinks rather than extending outside it.

use vstd::prelude::*;
use vstd::slice::slice_subrange;

use crate::grid::cell;
use crate::grid::lemma_cell;
use crate::grid::lemma_quot_rem;
use crate::grid::lemma_uncell;
use crate::image::Image;
use crate::plane::write_at;
use crate::plane::Plane;

verus! {

/// One tile of an image: the pixels it owns, and those that it is computed from.
#[derive(Clone, Copy, PartialEq, Eq, Structural, Debug)]
pub struct Tile {
    pub x0: usize,
    pub x1: usize,
    pub y0: usize,
    pub y1: usize,
    pub x0p: usize,
    pub x1p: usize,
    pub y0p: usize,
    pub y1p: usize,
}

/// The smaller of two numbers.
pub open spec fn least(a: int, b: int) -> int {
    if a <= b {
        a
    } else {
        b
    }
}

/// `a - b`, but not below zero.
pub open spec fn less(a: int, b: int) -> int {
    if a <= b {
        0
    } else {
        a - b
    }
}

/// A tile's size along one side of the image: the asked-for size, or the whole
/// side.
pub open spec fn tile_side(tile: int, n: int) -> int {
    if tile == 0 {
        n
    } else {
        least(tile, n)
    }
}

/// How many tiles of size `t` it takes to cover `n` pixels.
pub open spec fn tile_count(n: int, t: int) -> int {
    if n <= 0 || t <= 0 {
        0
    } else {
        (n + t - 1) / t
    }
}

/// The tile in row `i` and column `j`, of a `w` by `h` image in tiles of `tx` by
/// `ty` pixels with `pad` pixels of context.
pub open spec fn tile_at(w: int, h: int, tx: int, ty: int, pad: int, i: int, j: int) -> Tile {
    let (x0, y0) = (j * tx, i * ty);
    let (x1, y1) = (least(x0 + tx, w), least(y0 + ty, h));
    Tile {
        x0: x0 as usize,
        x1: x1 as usize,
        y0: y0 as usize,
        y1: y1 as usize,
        x0p: less(x0, pad) as usize,
        x1p: least(x1 + pad, w) as usize,
        y0p: less(y0, pad) as usize,
        y1p: least(y1 + pad, h) as usize,
    }
}

/// The tiles of an image, row by row.
pub open spec fn tiles_of(w: int, h: int, tx: int, ty: int, pad: int) -> Seq<Tile> {
    let (nx, ny) = (tile_count(w, tx), tile_count(h, ty));
    Seq::new((nx * ny) as nat, |k: int| tile_at(w, h, tx, ty, pad, k / nx, k % nx))
}

impl Tile {
    /// The tile is not empty, and its context lies around it.
    pub open spec fn ordered(&self) -> bool {
        &&& self.x0p <= self.x0 < self.x1 <= self.x1p
        &&& self.y0p <= self.y0 < self.y1 <= self.y1p
    }

    /// The tile and its context lie in a `w` by `h` image.
    pub open spec fn inside(&self, w: int, h: int) -> bool {
        &&& self.ordered()
        &&& self.x1p <= w
        &&& self.y1p <= h
    }

    /// Does the tile own this pixel?
    pub open spec fn owns(&self, y: int, x: int) -> bool {
        self.y0 <= y < self.y1 && self.x0 <= x < self.x1
    }

    /// Does the tile own this pixel of the output, which is `scale` times as
    /// large?
    pub open spec fn pastes(&self, scale: int, y: int, x: int) -> bool {
        self.y0 * scale <= y < self.y1 * scale && self.x0 * scale <= x < self.x1 * scale
    }

    /// Columns of the crop.
    pub open spec fn crop_w(&self) -> int {
        self.x1p - self.x0p
    }

    /// Rows of the crop.
    pub open spec fn crop_h(&self) -> int {
        self.y1p - self.y0p
    }
}

/// Tile `i` of `n` pixels begins inside them, and covers them up to the next
/// tile.
pub proof fn lemma_tile_side(n: int, t: int, i: int)
    requires
        0 < n,
        0 < t,
    ensures
        0 < tile_count(n, t),
        0 <= i < tile_count(n, t) ==> 0 <= i * t < n && least(i * t + t, n) == least(
            (i + 1) * t,
            n,
        ),
        i == tile_count(n, t) ==> i * t >= n,
        i == tile_count(n, t) - 1 ==> (i + 1) * t >= n,
{
    let c = tile_count(n, t);
    vstd::arithmetic::div_mod::lemma_fundamental_div_mod(n + t - 1, t);
    assert(t * c == c * t) by (nonlinear_arith);
    assert(n <= c * t < n + t);
    assert(0 < c) by (nonlinear_arith)
        requires
            n <= c * t,
            0 < n,
            0 < t,
    ;
    assert((i + 1) * t == i * t + t) by (nonlinear_arith);
    if 0 <= i < c {
        assert(0 <= i * t && (i + 1) * t <= c * t) by (nonlinear_arith)
            requires
                0 <= i < c,
                0 < t,
        ;
    }
}

/// Every tile lies in the image.
pub proof fn lemma_tile_inside(w: int, h: int, tx: int, ty: int, pad: int, i: int, j: int)
    requires
        0 < w <= usize::MAX,
        0 < h <= usize::MAX,
        0 < tx,
        0 < ty,
        0 <= pad,
        0 <= i < tile_count(h, ty),
        0 <= j < tile_count(w, tx),
    ensures
        tile_at(w, h, tx, ty, pad, i, j).inside(w, h),
        tile_at(w, h, tx, ty, pad, i, j).x0 == j * tx,
        tile_at(w, h, tx, ty, pad, i, j).x1 == least((j + 1) * tx, w),
        tile_at(w, h, tx, ty, pad, i, j).y0 == i * ty,
        tile_at(w, h, tx, ty, pad, i, j).y1 == least((i + 1) * ty, h),
{
    lemma_tile_side(w, tx, j);
    lemma_tile_side(h, ty, i);
}

/// The plan for an image: `None` where it is run in one pass, else its tiles.
pub fn plan(w: usize, h: usize, tile: usize, pad: usize) -> (r: Option<Vec<Tile>>)
    requires
        2 * w <= usize::MAX,
        2 * h <= usize::MAX,
        w + pad <= usize::MAX,
        h + pad <= usize::MAX,
    ensures
        ({
            let (tx, ty) = (tile_side(tile as int, w as int), tile_side(tile as int, h as int));
            match r {
                None => tx == w && ty == h,
                Some(v) => (tx != w || ty != h) && v@ == tiles_of(
                    w as int,
                    h as int,
                    tx,
                    ty,
                    pad as int,
                ),
            }
        }),
{
    let tx = if tile == 0 || w < tile {
        w
    } else {
        tile
    };
    let ty = if tile == 0 || h < tile {
        h
    } else {
        tile
    };
    if tx == w && ty == h {
        return None;
    }
    let ghost (nx, ny) = (tile_count(w as int, tx as int), tile_count(h as int, ty as int));
    let ghost all = tiles_of(w as int, h as int, tx as int, ty as int, pad as int);
    let mut v: Vec<Tile> = Vec::new();
    let mut y0: usize = 0;
    let ghost mut i: int = 0;
    proof {
        if h > 0 {
            lemma_tile_side(h as int, ty as int, 0);
        }
        if w > 0 {
            lemma_tile_side(w as int, tx as int, 0);
        }
        assert(nx * 0 == 0 && nx * ny >= 0) by (nonlinear_arith)
            requires
                0 <= nx,
                0 <= ny,
        ;
    }
    while y0 < h
        invariant
            2 * w <= usize::MAX,
            2 * h <= usize::MAX,
            w + pad <= usize::MAX,
            h + pad <= usize::MAX,
            tx <= w,
            ty <= h,
            0 < w ==> 0 < tx,
            0 < h ==> 0 < ty,
            nx == tile_count(w as int, tx as int),
            ny == tile_count(h as int, ty as int),
            all == tiles_of(w as int, h as int, tx as int, ty as int, pad as int),
            all.len() == nx * ny,
            0 <= nx,
            0 < w ==> 0 < nx,
            0 <= i <= ny,
            y0 == least(i * ty, h as int),
            i == ny <==> y0 == h,
            v@ == all.take(nx * i),
            0 <= nx * i <= nx * ny,
        decreases h - y0,
    {
        proof {
            lemma_tile_side(h as int, ty as int, i);
            lemma_tile_side(h as int, ty as int, i + 1);
            assert(0 <= nx * (i + 1) <= nx * ny && nx * (i + 1) == nx * i + nx) by (nonlinear_arith)
                requires
                    0 <= nx,
                    0 <= i < ny,
            ;
        }
        let y1 = if y0 + ty < h {
            y0 + ty
        } else {
            h
        };
        let y0p = if y0 < pad {
            0
        } else {
            y0 - pad
        };
        let y1p = if y1 + pad < h {
            y1 + pad
        } else {
            h
        };
        let mut x0: usize = 0;
        let ghost mut j: int = 0;
        while x0 < w
            invariant
                2 * w <= usize::MAX,
                w + pad <= usize::MAX,
                tx <= w,
                ty <= h,
                0 < w ==> 0 < tx,
                0 < ty,
                nx == tile_count(w as int, tx as int),
                ny == tile_count(h as int, ty as int),
                all == tiles_of(w as int, h as int, tx as int, ty as int, pad as int),
                all.len() == nx * ny,
                0 <= i < ny,
                0 <= nx * i,
                nx * i + nx <= nx * ny,
                y0 == i * ty,
                y1 == least(y0 + ty, h as int),
                y0p == less(y0 as int, pad as int),
                y1p == least(y1 + pad, h as int),
                0 <= j <= nx,
                x0 == least(j * tx, w as int),
                j == nx <==> x0 == w,
                v@ == all.take(nx * i + j),
            decreases w - x0,
        {
            let x1 = if x0 + tx < w {
                x0 + tx
            } else {
                w
            };
            let x0p = if x0 < pad {
                0
            } else {
                x0 - pad
            };
            let x1p = if x1 + pad < w {
                x1 + pad
            } else {
                w
            };
            proof {
                lemma_tile_side(w as int, tx as int, j);
                lemma_tile_side(w as int, tx as int, j + 1);
                assert(nx * i == i * nx) by (nonlinear_arith);
                lemma_quot_rem(i, nx, j);
            }
            let ghost was = v@;
            v.push(Tile { x0, x1, y0, y1, x0p, x1p, y0p, y1p });
            proof {
                let k = nx * i + j;
                assert(all[k] == tile_at(w as int, h as int, tx as int, ty as int, pad as int, i, j));
                assert(v@ =~= all.take(k + 1));
                j = j + 1;
            }
            x0 = x1;
        }
        proof {
            if w == 0 {
                assert(nx == 0);
            }
            i = i + 1;
        }
        y0 = y1;
    }
    assert(v@ =~= all);
    Some(v)
}

/// The crop that a tile is computed from.
pub fn crop<T: Copy>(img: &Image<T>, t: &Tile) -> (r: Plane<T>)
    requires
        img.wf(),
        t.inside(img.w as int, img.h as int),
    ensures
        r.wf(),
        r.c == 3,
        r.h == t.crop_h(),
        r.w == t.crop_w(),
        forall|c: int, y: int, x: int|
            r.has(c, y, x) ==> #[trigger] r.px(c, y, x) == img.px(c, t.y0p + y, t.x0p + x),
{
    let (cw, ch) = (t.x1p - t.x0p, t.y1p - t.y0p);
    proof {
        let (cw, ch, w, h) = (cw as int, ch as int, img.w as int, img.h as int);
        assert(3 * ch * cw <= 3 * w * h) by (nonlinear_arith)
            requires
                0 <= cw <= w,
                0 <= ch <= h,
        ;
        assert(img.data.len() == img.data@.len());
    }
    let at = |c: usize, y: usize, x: usize| -> (v: T)
        requires
            img.wf(),
            t.inside(img.w as int, img.h as int),
            c < 3,
            y < t.y1p - t.y0p,
            x < t.x1p - t.x0p,
        ensures
            v == img.px(c as int, t.y0p + y, t.x0p + x),
        {
            proof {
                let (c, y, x) = (c as int, t.y0p + y, t.x0p + x);
                lemma_cell(3, img.h as int, img.w as int, c, y, x);
                let (h, w) = (img.h as int, img.w as int);
                assert(3 * w * h == 3 * h * w) by (nonlinear_arith);
                assert(0 <= c * h && c * h + y <= (c * h + y) * w) by (nonlinear_arith)
                    requires
                        0 <= c,
                        0 <= y,
                        0 < h,
                        1 <= w,
                ;
                assert(img.data.len() == img.data@.len());
            }
            img.data[(c * img.h + (t.y0p + y)) * img.w + (t.x0p + x)]
        };
    Plane::from_fn(3, ch, cw, at)
}

/// The output's rows in the order they are pasted: how many come before row `y`
/// of channel `c`.
spec fn row_order(t: &Tile, scale: int, c: int, y: int) -> int {
    c * ((t.y1 - t.y0) * scale) + (y - t.y0 * scale)
}

/// `now` is the output `was` after the first `n` rows of the tile were pasted.
spec fn rows_pasted<T>(
    was: Plane<T>,
    up: Seq<T>,
    t: &Tile,
    scale: int,
    n: int,
    now: Plane<T>,
) -> bool {
    &&& now.wf()
    &&& now.c == was.c
    &&& now.h == was.h
    &&& now.w == was.w
    &&& forall|c: int, y: int, x: int|
        was.has(c, y, x) ==> #[trigger] now.px(c, y, x) == if t.pastes(scale, y, x) && row_order(
            t,
            scale,
            c,
            y,
        ) < n {
            up[up_cell(t, scale, c, y, x)]
        } else {
            was.px(c, y, x)
        }
}

/// Where a pixel of the output stands in the tile's own result.
pub open spec fn up_cell(t: &Tile, scale: int, c: int, y: int, x: int) -> int {
    cell(
        t.crop_h() * scale,
        t.crop_w() * scale,
        c,
        y - t.y0p * scale,
        x - t.x0p * scale,
    )
}

/// `now` is the output `was` after the tile was pasted: the pixels that the tile
/// owns are taken from its result `up`, and all others are as they were.
pub open spec fn pasted<T>(
    was: Plane<T>,
    up: Seq<T>,
    t: &Tile,
    scale: int,
    now: Plane<T>,
) -> bool {
    &&& now.wf()
    &&& now.c == was.c
    &&& now.h == was.h
    &&& now.w == was.w
    &&& forall|c: int, y: int, x: int|
        was.has(c, y, x) ==> #[trigger] now.px(c, y, x) == if t.pastes(scale, y, x) {
            up[up_cell(t, scale, c, y, x)]
        } else {
            was.px(c, y, x)
        }
}

/// Products with the scale keep their order.
proof fn lemma_scaled(a: int, b: int, scale: int)
    requires
        0 <= a <= b,
        0 <= scale,
    ensures
        0 <= a * scale <= b * scale,
        (b - a) * scale == b * scale - a * scale,
{
    assert(0 <= a * scale <= b * scale && (b - a) * scale == b * scale - a * scale)
        by (nonlinear_arith)
        requires
            0 <= a <= b,
            0 <= scale,
    ;
}

/// Pastes one row of one channel.
fn paste_row<T: Copy>(
    out: &mut Plane<T>,
    up: &[T],
    t: &Tile,
    scale: usize,
    c: usize,
    yy: usize,
    Ghost(was): Ghost<Plane<T>>,
)
    requires
        t.ordered(),
        old(out).c == 3,
        t.y1p * scale <= old(out).h,
        t.x1p * scale <= old(out).w,
        c < 3,
        yy < (t.y1 - t.y0) * scale,
        3 * (t.crop_h() * scale) * (t.crop_w() * scale) <= up@.len(),
        was.wf(),
        rows_pasted(
            was,
            up@,
            t,
            scale as int,
            row_order(t, scale as int, c as int, t.y0 * scale + yy),
            *old(out),
        ),
    ensures
        rows_pasted(
            was,
            up@,
            t,
            scale as int,
            row_order(t, scale as int, c as int, t.y0 * scale + yy) + 1,
            *final(out),
        ),
{
    let ghost s = scale as int;
    let ghost y = t.y0 * scale + yy;
    let ghost (ow, oh) = (out.w as int, out.h as int);
    let ghost (uw, uh) = (t.crop_w() * s, t.crop_h() * s);
    let ghost before = *out;
    proof {
        lemma_scaled(t.y0p as int, t.y0 as int, s);
        lemma_scaled(t.y0 as int, t.y1 as int, s);
        lemma_scaled(t.y1 as int, t.y1p as int, s);
        lemma_scaled(t.x0p as int, t.x0 as int, s);
        lemma_scaled(t.x0 as int, t.x1 as int, s);
        lemma_scaled(t.x1 as int, t.x1p as int, s);
        lemma_scaled(t.x0p as int, t.x1p as int, s);
        lemma_scaled(t.y0p as int, t.y1p as int, s);
        assert(0 < s) by (nonlinear_arith)
            requires
                0 <= yy < (t.y1 - t.y0) * s,
                0 <= s,
                t.y0 < t.y1,
        ;
        assert(t.x0 * s < t.x1 * s) by (nonlinear_arith)
            requires
                t.x0 < t.x1,
                0 < s,
        ;
        lemma_cell(3, oh, ow, c as int, y, t.x0 * s);
        lemma_cell(3, oh, ow, c as int, y, t.x1 * s - 1);
        lemma_cell(3, uh, uw, c as int, y - t.y0p * s, (t.x0 - t.x0p) * s);
        lemma_cell(3, uh, uw, c as int, y - t.y0p * s, (t.x0 - t.x0p) * s + (t.x1 - t.x0) * s - 1);
        assert(out.data.len() == out.data@.len());
        assert(up.len() == up@.len());
        lemma_rows(c as int, oh, y, ow);
        lemma_rows(c as int, uh, y - t.y0p * s, uw);
    }
    let (uw, uh) = ((t.x1p - t.x0p) * scale, (t.y1p - t.y0p) * scale);
    let paste_w = (t.x1 - t.x0) * scale;
    let at = (c * out.h + (t.y0 * scale + yy)) * out.w + t.x0 * scale;
    let from = (c * uh + ((t.y0 - t.y0p) * scale + yy)) * uw + (t.x0 - t.x0p) * scale;
    let src = slice_subrange(up, from, from + paste_w);
    write_at(out.data.as_mut_slice(), at, src);
    proof {
        let n = row_order(t, s, c as int, y);
        let now = *out;
        assert forall|c1: int, y1: int, x1: int| was.has(c1, y1, x1) implies #[trigger] now.px(
            c1,
            y1,
            x1,
        ) == if t.pastes(s, y1, x1) && row_order(t, s, c1, y1) < n + 1 {
            up@[up_cell(t, s, c1, y1, x1)]
        } else {
            was.px(c1, y1, x1)
        } by {
            lemma_cell(3, oh, ow, c1, y1, x1);
            let i = cell(oh, ow, c1, y1, x1);
            assert(before.px(c1, y1, x1) == before.data@[i]);
            let (r, r1) = (c * oh + y, c1 * oh + y1);
            if r1 == r {
                lemma_quot_rem(c as int, oh, y);
                lemma_quot_rem(c1, oh, y1);
                assert(c1 == c && y1 == y);
                assert(i - at == x1 - t.x0 * s);
                if t.pastes(s, y1, x1) {
                    assert(now.data@[i] == src@[i - at]);
                    assert(up_cell(t, s, c1, y1, x1) == from + (i - at));
                }
            } else {
                lemma_row_apart(r, r1, ow, t.x0 * s, paste_w as int, x1);
                assert(now.data@[i] == before.data@[i]);
                if t.pastes(s, y1, x1) {
                    lemma_order_apart(c as int, c1, (t.y1 - t.y0) * s, yy as int, y1 - t.y0 * s);
                }
            }
        }
    }
}

/// Rows of different channels or places are counted apart.
proof fn lemma_order_apart(c: int, c1: int, n: int, y: int, y1: int)
    requires
        0 <= y < n,
        0 <= y1 < n,
        c != c1 || y != y1,
    ensures
        c * n + y != c1 * n + y1,
{
    lemma_quot_rem(c, n, y);
    lemma_quot_rem(c1, n, y1);
}

/// Row `r1` does not meet the `n` values from `x0` on of another row `r`.
proof fn lemma_row_apart(r: int, r1: int, w: int, x0: int, n: int, x1: int)
    requires
        r != r1,
        0 <= x0,
        0 <= n,
        x0 + n <= w,
        0 <= x1 < w,
    ensures
        !(r * w + x0 <= r1 * w + x1 < r * w + x0 + n),
{
    if r < r1 {
        assert(r1 * w >= r * w + w) by (nonlinear_arith)
            requires
                r + 1 <= r1,
                0 <= w,
        ;
    } else {
        assert(r1 * w + w <= r * w) by (nonlinear_arith)
            requires
                r1 + 1 <= r,
                0 <= w,
        ;
    }
}

/// The number of a row, and the values before it, can be counted.
proof fn lemma_rows(c: int, h: int, y: int, w: int)
    requires
        0 <= c,
        0 <= y,
        0 < h,
        0 < w,
    ensures
        0 <= c * h <= c * h + y <= (c * h + y) * w,
{
    assert(0 <= c * h && c * h + y <= (c * h + y) * w) by (nonlinear_arith)
        requires
            0 <= c,
            0 <= y,
            0 < h,
            1 <= w,
    ;
}

/// Pastes a tile's own pixels into the output, which is `scale` times as large as
/// the image. `up` is the network's result on the tile's crop.
pub fn paste<T: Copy>(out: &mut Plane<T>, up: &[T], t: &Tile, scale: usize)
    requires
        t.ordered(),
        old(out).wf(),
        old(out).c == 3,
        t.y1p * scale <= old(out).h,
        t.x1p * scale <= old(out).w,
        3 * (t.crop_h() * scale) * (t.crop_w() * scale) <= up@.len(),
    ensures
        pasted(*old(out), up@, t, scale as int, *final(out)),
{
    let ghost was = *out;
    let ghost s = scale as int;
    proof {
        lemma_scaled(t.y0 as int, t.y1 as int, s);
        lemma_scaled(t.y1 as int, t.y1p as int, s);
    }
    let paste_h = (t.y1 - t.y0) * scale;
    let mut c: usize = 0;
    while c < 3
        invariant
            t.ordered(),
            s == scale,
            was.wf(),
            was.c == 3,
            paste_h == (t.y1 - t.y0) * scale,
            0 <= t.y0 * s,
            t.y0 * s + paste_h == t.y1 * s,
            out.c == 3,
            t.y1p * scale <= out.h,
            t.x1p * scale <= out.w,
            3 * (t.crop_h() * scale) * (t.crop_w() * scale) <= up@.len(),
            c <= 3,
            rows_pasted(was, up@, t, s, c * paste_h, *out),
        decreases 3 - c,
    {
        let mut yy: usize = 0;
        while yy < paste_h
            invariant
                t.ordered(),
                s == scale,
                was.wf(),
                was.c == 3,
                paste_h == (t.y1 - t.y0) * scale,
                out.c == 3,
                t.y1p * scale <= out.h,
                t.x1p * scale <= out.w,
                3 * (t.crop_h() * scale) * (t.crop_w() * scale) <= up@.len(),
                c < 3,
                yy <= paste_h,
                rows_pasted(was, up@, t, s, c * paste_h + yy, *out),
            decreases paste_h - yy,
        {
            assert(row_order(t, s, c as int, t.y0 * scale + yy) == c * paste_h + yy);
            paste_row(out, up, t, scale, c, yy, Ghost(was));
            yy += 1;
        }
        assert((c + 1) * paste_h == c * paste_h + paste_h) by (nonlinear_arith);
        c += 1;
    }
    proof {
        assert forall|c: int, y: int, x: int| was.has(c, y, x) implies #[trigger] out.px(c, y, x)
            == if t.pastes(s, y, x) {
            up@[up_cell(t, s, c, y, x)]
        } else {
            was.px(c, y, x)
        } by {
            if t.pastes(s, y, x) {
                let n = paste_h as int;
                assert(c * n + (y - t.y0 * s) < 3 * n) by (nonlinear_arith)
                    requires
                        0 <= c < 3,
                        0 <= y - t.y0 * s < n,
                ;
            }
        }
    }
}

/// Every pixel of an image has one owner among its tiles.
pub proof fn tiles_partition(w: int, h: int, tx: int, ty: int, pad: int, y: int, x: int) -> (k: int)
    requires
        0 < w <= usize::MAX,
        0 < h <= usize::MAX,
        0 < tx,
        0 < ty,
        0 <= pad,
        0 <= y < h,
        0 <= x < w,
    ensures
        0 <= k < tiles_of(w, h, tx, ty, pad).len(),
        tiles_of(w, h, tx, ty, pad)[k].owns(y, x),
        forall|m: int|
            0 <= m < tiles_of(w, h, tx, ty, pad).len() && (#[trigger] tiles_of(
                w,
                h,
                tx,
                ty,
                pad,
            )[m]).owns(y, x) ==> m == k,
{
    let (nx, ny) = (tile_count(w, tx), tile_count(h, ty));
    let (i, j) = (y / ty, x / tx);
    lemma_tile_side(w, tx, nx);
    lemma_tile_side(h, ty, ny);
    lemma_owner(h, ty, y);
    lemma_owner(w, tx, x);
    let k = i * nx + j;
    assert(0 <= k < nx * ny) by (nonlinear_arith)
        requires
            0 <= i < ny,
            0 <= j < nx,
            k == i * nx + j,
    ;
    lemma_quot_rem(i, nx, j);
    lemma_tile_inside(w, h, tx, ty, pad, i, j);
    let all = tiles_of(w, h, tx, ty, pad);
    assert forall|m: int| 0 <= m < all.len() && (#[trigger] all[m]).owns(y, x) implies m == k by {
        lemma_place(m, nx, ny);
        let (i1, j1) = (m / nx, m % nx);
        lemma_tile_inside(w, h, tx, ty, pad, i1, j1);
        lemma_one_owner(h, ty, y, i1);
        lemma_one_owner(w, tx, x, j1);
    }
    k
}

/// Number `m` of `nx * ny` has a row and a column.
pub proof fn lemma_place(m: int, nx: int, ny: int)
    requires
        0 < nx,
        0 <= m < nx * ny,
    ensures
        0 <= m / nx < ny,
        0 <= m % nx < nx,
        m == (m / nx) * nx + m % nx,
{
    vstd::arithmetic::div_mod::lemma_fundamental_div_mod(m, nx);
    assert(nx * (m / nx) == (m / nx) * nx) by (nonlinear_arith);
    assert(0 <= m / nx < ny) by (nonlinear_arith)
        requires
            0 < nx,
            0 <= m < nx * ny,
    ;
}

/// The tile that a place belongs to, along one side.
proof fn lemma_owner(n: int, t: int, x: int)
    requires
        0 < t,
        0 <= x < n,
    ensures
        0 <= x / t < tile_count(n, t),
        (x / t) * t <= x < (x / t + 1) * t,
{
    vstd::arithmetic::div_mod::lemma_fundamental_div_mod(x, t);
    let q = x / t;
    assert(t * q == q * t && (q + 1) * t == q * t + t) by (nonlinear_arith);
    let c = tile_count(n, t);
    lemma_tile_side(n, t, c);
    assert(0 <= q) by (nonlinear_arith)
        requires
            0 <= x,
            0 < t,
            x < (q + 1) * t,
    ;
    assert(q < c) by (nonlinear_arith)
        requires
            q * t <= x,
            x < n,
            n <= c * t,
            0 < t,
    ;
}

/// No other tile has it.
proof fn lemma_one_owner(n: int, t: int, x: int, i: int)
    requires
        0 < t,
        0 <= x < n,
        i * t <= x < (i + 1) * t,
    ensures
        i == x / t,
{
    assert((i + 1) * t == i * t + t) by (nonlinear_arith);
    lemma_quot_rem(i, t, x - i * t);
}

/// `outs` is the output before each tile is pasted, and after the last.
pub open spec fn assembled<T>(
    outs: Seq<Plane<T>>,
    tiles: Seq<Tile>,
    ups: Seq<Seq<T>>,
    scale: int,
) -> bool {
    &&& outs.len() == tiles.len() + 1
    &&& ups.len() == tiles.len()
    &&& forall|k: int|
        0 <= k < tiles.len() ==> pasted(
            #[trigger] outs[k],
            ups[k],
            &tiles[k],
            scale,
            outs[k + 1],
        )
}

/// A tile pastes the pixels of the output that lie over those it owns.
pub proof fn lemma_pastes(t: &Tile, scale: int, y: int, x: int)
    requires
        0 < scale,
    ensures
        t.pastes(scale, y, x) <==> t.owns(y / scale, x / scale),
{
    lemma_over(t.y0 as int, scale, y);
    lemma_over(t.y1 as int, scale, y);
    lemma_over(t.x0 as int, scale, x);
    lemma_over(t.x1 as int, scale, x);
}

/// `a * scale` is at most `y` when `a` is at most `y / scale`.
proof fn lemma_over(a: int, scale: int, y: int)
    requires
        0 < scale,
    ensures
        a * scale <= y <==> a <= y / scale,
{
    vstd::arithmetic::div_mod::lemma_fundamental_div_mod(y, scale);
    let q = y / scale;
    assert(a * scale <= y <==> a <= q) by (nonlinear_arith)
        requires
            0 < scale,
            scale * q <= y < scale * q + scale,
    ;
}

/// After the first `m` tiles, a pixel holds its owner's result if that tile was
/// among them.
proof fn lemma_assembled<T>(
    outs: Seq<Plane<T>>,
    tiles: Seq<Tile>,
    ups: Seq<Seq<T>>,
    scale: int,
    k: int,
    c: int,
    y: int,
    x: int,
    m: int,
)
    requires
        0 < scale,
        assembled(outs, tiles, ups, scale),
        outs[0].has(c, y, x),
        0 <= k < tiles.len(),
        tiles[k].owns(y / scale, x / scale),
        forall|j: int|
            0 <= j < tiles.len() && (#[trigger] tiles[j]).owns(y / scale, x / scale) ==> j == k,
        0 <= m <= tiles.len(),
    ensures
        outs[m].c == outs[0].c,
        outs[m].h == outs[0].h,
        outs[m].w == outs[0].w,
        outs[m].px(c, y, x) == if k < m {
            ups[k][up_cell(&tiles[k], scale, c, y, x)]
        } else {
            outs[0].px(c, y, x)
        },
    decreases m,
{
    if m > 0 {
        lemma_assembled(outs, tiles, ups, scale, k, c, y, x, m - 1);
        lemma_pastes(&tiles[m - 1], scale, y, x);
        assert(pasted(outs[m - 1], ups[m - 1], &tiles[m - 1], scale, outs[m - 1 + 1]));
        assert(outs[m - 1].has(c, y, x));
    }
}

/// When all tiles of an image have been pasted, every pixel of the output comes
/// from the one tile that owns the pixel under it.
pub proof fn output_comes_from_owner<T>(
    w: int,
    h: int,
    tx: int,
    ty: int,
    pad: int,
    scale: int,
    outs: Seq<Plane<T>>,
    ups: Seq<Seq<T>>,
    c: int,
    y: int,
    x: int,
) -> (k: int)
    requires
        0 < w <= usize::MAX,
        0 < h <= usize::MAX,
        0 < tx,
        0 < ty,
        0 <= pad,
        0 < scale,
        assembled(outs, tiles_of(w, h, tx, ty, pad), ups, scale),
        outs[0].c == 3,
        outs[0].h == h * scale,
        outs[0].w == w * scale,
        outs[0].has(c, y, x),
    ensures
        0 <= k < ups.len(),
        tiles_of(w, h, tx, ty, pad)[k].owns(y / scale, x / scale),
        outs.last().px(c, y, x) == ups[k][up_cell(
            &tiles_of(w, h, tx, ty, pad)[k],
            scale,
            c,
            y,
            x,
        )],
{
    lemma_under(h, scale, y);
    lemma_under(w, scale, x);
    let tiles = tiles_of(w, h, tx, ty, pad);
    let k = tiles_partition(w, h, tx, ty, pad, y / scale, x / scale);
    lemma_assembled(outs, tiles, ups, scale, k, c, y, x, tiles.len() as int);
    k
}

/// The pixel under a pixel of the output is a pixel of the image.
proof fn lemma_under(n: int, scale: int, y: int)
    requires
        0 < scale,
        0 <= y < n * scale,
    ensures
        0 <= y / scale < n,
{
    lemma_over(0, scale, y);
    lemma_over(n, scale, y);
}

/// If every tile's result agrees, on the pixels that the tile owns, with the
/// result on the whole image, then the tiled output is that result.
pub proof fn tiled_equals_whole<T>(
    w: int,
    h: int,
    tx: int,
    ty: int,
    pad: int,
    scale: int,
    outs: Seq<Plane<T>>,
    ups: Seq<Seq<T>>,
    whole: Plane<T>,
)
    requires
        0 < w <= usize::MAX,
        0 < h <= usize::MAX,
        0 < tx,
        0 < ty,
        0 <= pad,
        0 < scale,
        assembled(outs, tiles_of(w, h, tx, ty, pad), ups, scale),
        outs[0].wf(),
        outs[0].c == 3,
        outs[0].h == h * scale,
        outs[0].w == w * scale,
        whole.wf(),
        whole.c == 3,
        whole.h == h * scale,
        whole.w == w * scale,
        forall|k: int, c: int, y: int, x: int|
            0 <= k < ups.len() && whole.has(c, y, x) && tiles_of(w, h, tx, ty, pad)[k].pastes(
                scale,
                y,
                x,
            ) ==> #[trigger] ups[k][up_cell(
                &tiles_of(w, h, tx, ty, pad)[k],
                scale,
                c,
                y,
                x,
            )] == whole.px(c, y, x),
    ensures
        outs.last().data@ == whole.data@,
{
    let tiles = tiles_of(w, h, tx, ty, pad);
    let last = outs.last();
    let k0 = tiles_partition(w, h, tx, ty, pad, 0, 0);
    assert(last.wf() && last.c == 3 && last.h == whole.h && last.w == whole.w) by {
        assert(0 < h * scale && 0 < w * scale) by (nonlinear_arith)
            requires
                0 < h,
                0 < w,
                0 < scale,
        ;
        assert(outs[0].has(0, 0, 0));
        lemma_over(0, scale, 0);
        lemma_over(1, scale, 0);
        let m = tiles.len() as int;
        lemma_assembled(outs, tiles, ups, scale, k0, 0, 0, 0, m);
        assert(pasted(outs[m - 1], ups[m - 1], &tiles[m - 1], scale, outs[m - 1 + 1]));
    }
    assert forall|i: int| 0 <= i < whole.data@.len() implies last.data@[i] == whole.data@[i] by {
        let (oh, ow) = (whole.h as int, whole.w as int);
        lemma_uncell(3, oh, ow, i);
        let (c, y, x) = ((i / ow) / oh, (i / ow) % oh, i % ow);
        let k = output_comes_from_owner(w, h, tx, ty, pad, scale, outs, ups, c, y, x);
        lemma_pastes(&tiles[k], scale, y, x);
        assert(ups[k][up_cell(&tiles[k], scale, c, y, x)] == whole.px(c, y, x));
        assert(last.px(c, y, x) == last.data@[i] && whole.px(c, y, x) == whole.data@[i]);
    }
    assert(last.data@ =~= whole.data@);
}

/// The tiles that have their full size and their full context are all cropped to
/// the same size.
pub proof fn interior_tiles_share_a_size(w: int, h: int, tx: int, ty: int, pad: int, i: int, j: int)
    requires
        0 < w <= usize::MAX,
        0 < h <= usize::MAX,
        0 < tx,
        0 < ty,
        0 <= pad,
        0 <= i < tile_count(h, ty),
        0 <= j < tile_count(w, tx),
        pad <= i * ty,
        pad <= j * tx,
        (i + 1) * ty + pad <= h,
        (j + 1) * tx + pad <= w,
    ensures
        tile_at(w, h, tx, ty, pad, i, j).crop_w() == tx + 2 * pad,
        tile_at(w, h, tx, ty, pad, i, j).crop_h() == ty + 2 * pad,
{
    lemma_tile_inside(w, h, tx, ty, pad, i, j);
    assert((i + 1) * ty == i * ty + ty && (j + 1) * tx == j * tx + tx) by (nonlinear_arith);
}

} // verus!
