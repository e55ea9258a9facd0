//! When tiling is exact.

use vstd::prelude::*;

use crate::graph::Kernels;
use crate::graph::Net;
use crate::grid::cell;
use crate::image::Image;
use crate::locality::deep_along;
use crate::locality::lemma_unshuffled;
use crate::locality::reach;
use crate::locality::twins;
use crate::locality::Crop;
use crate::locality::Runs;
use crate::model::Geometry;
use crate::plane::Plane;
use crate::tile::assembled;
use crate::tile::least;
use crate::tile::lemma_place;
use crate::tile::lemma_tile_inside;
use crate::tile::lemma_tile_side;
use crate::tile::less;
use crate::tile::tile_at;
use crate::tile::tile_count;
use crate::tile::tiled_equals_whole;
use crate::tile::tiles_of;
use crate::tile::up_cell;
use crate::tile::Tile;

verus! {

/// `cut` is the crop of a tile.
pub open spec fn cropped<T>(img: Image<T>, t: Tile, cut: Plane<T>) -> bool {
    &&& cut.wf()
    &&& cut.c == 3
    &&& cut.h == t.crop_h()
    &&& cut.w == t.crop_w()
    &&& forall|c: int, y: int, x: int|
        cut.has(c, y, x) ==> #[trigger] cut.px(c, y, x) == img.px(c, t.y0p + y, t.x0p + x)
}

/// The network on an image of `h` by `w` pixels.
pub open spec fn net_on<T>(k: Kernels<T>, g: Geometry, h: int, w: int) -> Net<T> {
    Net { k, g, h: g.working(h), w: g.working(w) }
}

/// The tiles of a `w` by `h` image fall on pixels that the network works with: all
/// of them for the x4 model, every other one for the x2 model.
pub open spec fn aligned(g: Geometry, w: int, h: int, tx: int, ty: int, pad: int) -> bool {
    ||| g.scale == 4
    ||| g.scale == 2 && w % 2 == 0 && h % 2 == 0 && tx % 2 == 0 && ty % 2 == 0 && pad % 2 == 0
}

/// An even number of pixels, from an even place on.
proof fn lemma_even(n: int, t: int, pad: int, i: int)
    requires
        0 < n,
        0 < t,
        0 <= pad,
        n % 2 == 0,
        t % 2 == 0,
        pad % 2 == 0,
    ensures
        less(i * t, pad) % 2 == 0,
        least(least(i * t + t, n) + pad, n) % 2 == 0,
{
    let q = t / 2;
    assert(i * t == 2 * (i * q)) by (nonlinear_arith)
        requires
            t == 2 * q,
    ;
}

/// Along one side, the pixels of the result over the owned pixels `lo..hi` lie as
/// deep as the pad reaches.
proof fn lemma_owned_deep(
    n: int,
    lop: int,
    lo: int,
    hi: int,
    hip: int,
    pad: int,
    s: int,
    m: int,
    p: int,
)
    requires
        s == 2 || s == 4,
        0 <= pad,
        lop == less(lo, pad),
        hip == least(hi + pad, n),
        lop <= lo < hi <= hip,
        m <= s * pad,
        lo * s <= p < hi * s,
    ensures
        deep_along(n * s, lop * s, (hip - lop) * s, m, p),
{
    assert((hip - lop) * s == hip * s - lop * s) by (nonlinear_arith);
}

/// A tile's result agrees with the whole image's on the pixels that the tile owns.
proof fn lemma_tile_exact<T>(
    k: Kernels<T>,
    g: Geometry,
    img: Image<T>,
    tx: int,
    ty: int,
    pad: int,
    i: int,
    j: int,
    cut: Plane<T>,
    up: Seq<T>,
    whole: Plane<T>,
    ch: int,
    y: int,
    x: int,
)
    requires
        k.local(g),
        img.wf(),
        0 < img.w,
        0 < img.h,
        0 < tx,
        0 < ty,
        0 <= pad,
        g.in_ch == 3,
        g.out_ch == 3,
        aligned(g, img.w as int, img.h as int, tx, ty, pad),
        reach(g) <= g.scale * pad,
        0 <= i < tile_count(img.h as int, ty),
        0 <= j < tile_count(img.w as int, tx),
        cropped(img, tile_at(img.w as int, img.h as int, tx, ty, pad, i, j), cut),
        net_on(k, g, cut.h as int, cut.w as int).network(
            cut.data@,
            cut.h as int,
            cut.w as int,
            up,
        ),
        net_on(k, g, img.h as int, img.w as int).network(
            img.data@,
            img.h as int,
            img.w as int,
            whole.data@,
        ),
        whole.wf(),
        whole.c == 3,
        whole.h == img.h * g.scale,
        whole.w == img.w * g.scale,
        whole.has(ch, y, x),
        tile_at(img.w as int, img.h as int, tx, ty, pad, i, j).pastes(g.scale as int, y, x),
    ensures
        up[up_cell(
            &tile_at(img.w as int, img.h as int, tx, ty, pad, i, j),
            g.scale as int,
            ch,
            y,
            x,
        )] == whole.px(ch, y, x),
{
    let (w, h) = (img.w as int, img.h as int);
    let t = tile_at(w, h, tx, ty, pad, i, j);
    lemma_tile_inside(w, h, tx, ty, pad, i, j);
    let at = Crop { wh: h, ww: w, y: t.y0p as int, x: t.x0p as int, h: t.crop_h(), w: t.crop_w() };
    assert(twins(at, 3, 0, img.data@, cut.data@)) by {
        assert(3 * w * h == 3 * h * w) by (nonlinear_arith);
        assert forall|c: int, py: int, px: int|
            0 <= c < 3 && at.deep(0, py, px) implies #[trigger] img.data@[cell(h, w, c, py, px)]
            == cut.data@[cell(at.h, at.w, c, py - at.y, px - at.x)] by {
            assert(cut.has(c, py - at.y, px - at.x));
            assert(cut.px(c, py - at.y, px - at.x) == img.px(
                c,
                t.y0p + (py - at.y),
                t.x0p + (px - at.x),
            ));
        }
    }
    let c = if g.scale == 2 {
        lemma_even(w, tx, pad, j);
        lemma_even(h, ty, pad, i);
        Crop { wh: h / 2, ww: w / 2, y: at.y / 2, x: at.x / 2, h: at.h / 2, w: at.w / 2 }
    } else {
        at
    };
    if g.scale == 2 {
        assert(c.times(2) == at);
        lemma_unshuffled(c, 3, 0, img.data@, cut.data@);
    }
    let runs = Runs { k, g, c };
    assert(runs.whole() == net_on(k, g, h, w));
    assert(runs.part() == net_on(k, g, cut.h as int, cut.w as int));
    runs.network_is_local(img.data@, h, w, cut.data@, at.h, at.w, whole.data@, up);
    let (d, s) = (c.times(4), g.scale as int);
    assert(d.wh == h * s && d.ww == w * s && d.y == t.y0p * s && d.x == t.x0p * s);
    assert(d.h == t.crop_h() * s && d.w == t.crop_w() * s);
    lemma_owned_deep(h, t.y0p as int, t.y0 as int, t.y1 as int, t.y1p as int, pad, s, reach(g), y);
    lemma_owned_deep(w, t.x0p as int, t.x0 as int, t.x1 as int, t.x1p as int, pad, s, reach(g), x);
    assert(d.deep(reach(g), y, x));
    assert(whole.data@[cell(d.wh, d.ww, ch, y, x)] == up[cell(d.h, d.w, ch, y - d.y, x - d.x)]);
}

/// With enough context around every tile, tiling is exact: if a pixel of the result
/// looks no further than the pad, scaled, then the tiled output is the network's on
/// the whole image. At the border of the image, where the crop shrinks, no context
/// is needed.
pub proof fn enough_context_is_exact<T>(
    k: Kernels<T>,
    g: Geometry,
    img: Image<T>,
    tx: int,
    ty: int,
    pad: int,
    cuts: Seq<Plane<T>>,
    ups: Seq<Seq<T>>,
    outs: Seq<Plane<T>>,
    whole: Plane<T>,
)
    requires
        k.local(g),
        img.wf(),
        0 < img.w,
        0 < img.h,
        0 < tx,
        0 < ty,
        0 <= pad,
        g.in_ch == 3,
        g.out_ch == 3,
        aligned(g, img.w as int, img.h as int, tx, ty, pad),
        reach(g) <= g.scale * pad,
        forall|n: int|
            0 <= n < ups.len() ==> {
                &&& cropped(
                    img,
                    tiles_of(img.w as int, img.h as int, tx, ty, pad)[n],
                    #[trigger] cuts[n],
                )
                &&& net_on(k, g, cuts[n].h as int, cuts[n].w as int).network(
                    cuts[n].data@,
                    cuts[n].h as int,
                    cuts[n].w as int,
                    ups[n],
                )
            },
        cuts.len() == ups.len(),
        assembled(
            outs,
            tiles_of(img.w as int, img.h as int, tx, ty, pad),
            ups,
            g.scale as int,
        ),
        outs[0].wf(),
        outs[0].c == 3,
        outs[0].h == img.h * g.scale,
        outs[0].w == img.w * g.scale,
        net_on(k, g, img.h as int, img.w as int).network(
            img.data@,
            img.h as int,
            img.w as int,
            whole.data@,
        ),
        whole.wf(),
        whole.c == 3,
        whole.h == img.h * g.scale,
        whole.w == img.w * g.scale,
    ensures
        outs.last().data@ == whole.data@,
{
    let (w, h, scale) = (img.w as int, img.h as int, g.scale as int);
    let tiles = tiles_of(w, h, tx, ty, pad);
    let nx = tile_count(w, tx);
    assert forall|n: int, ch: int, y: int, x: int|
        0 <= n < ups.len() && whole.has(ch, y, x) && tiles_of(w, h, tx, ty, pad)[n].pastes(
            scale,
            y,
            x,
        ) implies #[trigger] ups[n][up_cell(
        &tiles_of(w, h, tx, ty, pad)[n],
        scale,
        ch,
        y,
        x,
    )] == whole.px(ch, y, x) by {
        lemma_tile_side(w, tx, 0);
        lemma_place(n, nx, tile_count(h, ty));
        assert(tiles[n] == tile_at(w, h, tx, ty, pad, n / nx, n % nx));
        assert(cropped(img, tiles[n], cuts[n]));
        lemma_tile_exact(
            k,
            g,
            img,
            tx,
            ty,
            pad,
            n / nx,
            n % nx,
            cuts[n],
            ups[n],
            whole,
            ch,
            y,
            x,
        );
    }
    tiled_equals_whole(w, h, tx, ty, pad, scale, outs, ups, whole);
}

} // verus!
