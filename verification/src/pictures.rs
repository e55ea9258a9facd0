//! Pixels, spelled out: where each value of an image, a crop, a tile or a rearranged
//! plane comes from.

use vstd::prelude::*;

use crate::codec::png_decoded;
use crate::codec::samples;
use crate::grid::lemma_cell;
use crate::grid::lemma_quot_rem;
use crate::image::bytes_of;
use crate::image::from_sample_is;
use crate::image::full_sample;
use crate::image::load_rgb_stream;
use crate::image::loaded;
use crate::image::pixels_of;
use crate::image::sample;
use crate::image::source_channel;
use crate::image::Image;
use crate::image::ImageError;
use crate::image::Samples;
use crate::plane::Plane;
use crate::shuffle::pixel_unshuffle2;
use crate::shuffle::unshuffled;
use crate::shuffle::upsample2x_nearest;
use crate::shuffle::upsampled;
use crate::tile::crop;
use crate::tile::lemma_tile_inside;
use crate::tile::lemma_tile_side;
use crate::tile::pasted;
use crate::tile::plan;
use crate::tile::tile_count;
use crate::tile::tile_side;
use crate::tile::Tile;

verus! {

/// A plane's values stand channel by channel, row by row.
pub proof fn values_stand_row_by_row<T>(p: Plane<T>, img: Image<T>, c: int, y: int, x: int)
    ensures
        p.px(c, y, x) == p.data@[(c * p.h + y) * p.w + x],
        img.px(c, y, x) == img.data@[(c * img.h + y) * img.w + x],
        p.wf() <==> p.data@.len() == p.c * p.h * p.w,
        img.wf() <==> img.data@.len() == 3 * img.w * img.h,
{
}

/// Upsampling repeats every value in a 2x2 block.
pub proof fn upsampling_repeats_each_value<T: Copy>(
    inp: &Plane<T>,
    r: Plane<T>,
    c: int,
    y: int,
    x: int,
    dy: int,
    dx: int,
)
    requires
        call_ensures(upsample2x_nearest::<T>, (inp,), r),
        0 <= c < inp.c,
        0 <= y < inp.h,
        0 <= x < inp.w,
        0 <= dy < 2,
        0 <= dx < 2,
    ensures
        r.c == inp.c && r.h == 2 * inp.h && r.w == 2 * inp.w,
        r.data@.len() == r.c * r.h * r.w,
        r.data@[(c * (2 * inp.h) + 2 * y + dy) * (2 * inp.w) + 2 * x + dx] == inp.data@[(c * inp.h
            + y) * inp.w + x],
        upsampled(inp.data@, inp.c as int, inp.h as int, inp.w as int) == r.data@,
{
    let (yy, xx) = (2 * y + dy, 2 * x + dx);
    assert(yy / 2 == y && xx / 2 == x);
    assert(r.px(c, yy, xx) == inp.px(c, yy / 2, xx / 2));
}

/// Unshuffling takes every 2x2 block apart: its four values go to four channels.
pub proof fn unshuffling_takes_blocks_apart<T: Copy>(
    inp: &Plane<T>,
    r: Plane<T>,
    c: int,
    y: int,
    x: int,
    dy: int,
    dx: int,
)
    requires
        call_ensures(pixel_unshuffle2::<T>, (inp,), r),
        0 <= c < inp.c,
        0 <= y < inp.h as int / 2,
        0 <= x < inp.w as int / 2,
        0 <= dy < 2,
        0 <= dx < 2,
    ensures
        r.c == 4 * inp.c && r.h == inp.h / 2 && r.w == inp.w / 2,
        r.data@.len() == r.c * r.h * r.w,
        r.data@[((4 * c + 2 * dy + dx) * (inp.h as int / 2) + y) * (inp.w as int / 2) + x]
            == inp.data@[(c * inp.h + 2 * y + dy) * inp.w + 2 * x + dx],
        unshuffled(inp.data@, inp.c as int, inp.h as int, inp.w as int) == r.data@,
{
    assert(r.px(c * 4 + dy * 2 + dx, y, x) == inp.px(c, 2 * y + dy, 2 * x + dx));
}

/// The tiles of an image: the cuts stand at the multiples of the tile's size, and a
/// tile's context reaches `pad` pixels further on each side, or to the border. An
/// image that one tile covers is not cut.
pub proof fn tiles_are_cut_at_multiples(
    w: usize,
    h: usize,
    tile: usize,
    pad: usize,
    r: Option<Vec<Tile>>,
    nx: int,
    ny: int,
    i: int,
    j: int,
)
    requires
        call_ensures(plan, (w, h, tile, pad), r),
        0 < w,
        0 < h,
        ({
            let tx = if tile == 0 || tile > w {
                w
            } else {
                tile
            };
            let ty = if tile == 0 || tile > h {
                h
            } else {
                tile
            };
            &&& (nx - 1) * tx < w <= nx * tx
            &&& (ny - 1) * ty < h <= ny * ty
        }),
        0 <= i < ny,
        0 <= j < nx,
    ensures
        r is None <==> (tile == 0 || tile >= w) && (tile == 0 || tile >= h),
        r matches Some(v) ==> {
            let tx = if tile == 0 || tile > w {
                w
            } else {
                tile
            };
            let ty = if tile == 0 || tile > h {
                h
            } else {
                tile
            };
            let t = v@[i * nx + j];
            &&& v@.len() == nx * ny
            &&& 0 <= i * nx + j < nx * ny
            &&& t.x0 == j * tx
            &&& t.y0 == i * ty
            &&& t.x1 == if t.x0 + tx > w {
                w as int
            } else {
                t.x0 + tx
            }
            &&& t.y1 == if t.y0 + ty > h {
                h as int
            } else {
                t.y0 + ty
            }
            &&& t.x0p == if t.x0 < pad {
                0
            } else {
                t.x0 - pad
            }
            &&& t.y0p == if t.y0 < pad {
                0
            } else {
                t.y0 - pad
            }
            &&& t.x1p == if t.x1 + pad > w {
                w as int
            } else {
                t.x1 + pad
            }
            &&& t.y1p == if t.y1 + pad > h {
                h as int
            } else {
                t.y1 + pad
            }
        },
{
    let (tx, ty) = (tile_side(tile as int, w as int), tile_side(tile as int, h as int));
    lemma_count(w as int, tx, nx);
    lemma_count(h as int, ty, ny);
    assert(0 <= i * nx + j < nx * ny) by (nonlinear_arith)
        requires
            0 <= i < ny,
            0 <= j < nx,
    ;
    lemma_quot_rem(i, nx, j);
    lemma_tile_inside(w as int, h as int, tx, ty, pad as int, i, j);
    assert((i + 1) * ty == i * ty + ty && (j + 1) * tx == j * tx + tx) by (nonlinear_arith);
}

/// An image without pixels has no tiles, whether it is cut or not.
pub proof fn empty_images_have_no_tiles(
    w: usize,
    h: usize,
    tile: usize,
    pad: usize,
    r: Option<Vec<Tile>>,
)
    requires
        call_ensures(plan, (w, h, tile, pad), r),
        w == 0 || h == 0,
    ensures
        r is None <==> (tile == 0 || tile >= w) && (tile == 0 || tile >= h),
        r matches Some(v) ==> v@.len() == 0,
{
    let (tx, ty) = (tile_side(tile as int, w as int), tile_side(tile as int, h as int));
    let (nx, ny) = (tile_count(w as int, tx), tile_count(h as int, ty));
    assert(nx * ny == 0) by (nonlinear_arith)
        requires
            nx == 0 || ny == 0,
    ;
}

/// The number of tiles along one side.
proof fn lemma_count(n: int, t: int, k: int)
    requires
        0 < n,
        0 < t,
        (k - 1) * t < n <= k * t,
    ensures
        tile_count(n, t) == k,
        0 < k,
{
    let c = tile_count(n, t);
    lemma_tile_side(n, t, c);
    lemma_tile_side(n, t, c - 1);
    assert(k == c) by (nonlinear_arith)
        requires
            (k - 1) * t < n <= k * t,
            n <= c * t,
            (c - 1) * t < n,
            0 < t,
    ;
}

/// A crop holds the pixels of the tile and its context.
pub proof fn crop_is_a_window<T: Copy>(
    img: &Image<T>,
    t: &Tile,
    r: Plane<T>,
    c: int,
    y: int,
    x: int,
)
    requires
        call_ensures(crop::<T>, (img, t), r),
        0 <= c < 3,
        t.y0p <= y < t.y1p,
        t.x0p <= x < t.x1p,
    ensures
        r.c == 3 && r.h == t.y1p - t.y0p && r.w == t.x1p - t.x0p,
        r.data@.len() == r.c * r.h * r.w,
        r.data@[(c * (t.y1p - t.y0p) + y - t.y0p) * (t.x1p - t.x0p) + x - t.x0p] == img.data@[(c
            * img.h + y) * img.w + x],
{
    assert(r.px(c, y - t.y0p, x - t.x0p) == img.px(
        c,
        t.y0p + (y - t.y0p),
        t.x0p + (x - t.x0p),
    ));
}

/// Pasting writes the pixels over those that the tile owns, each from its own place
/// in the tile's result, and leaves all others.
pub proof fn pasting_writes_the_owned_pixels<T>(
    was: Plane<T>,
    up: Seq<T>,
    t: &Tile,
    scale: int,
    now: Plane<T>,
    c: int,
    y: int,
    x: int,
)
    requires
        pasted(was, up, t, scale, now),
        0 <= c < was.c,
        0 <= y < was.h,
        0 <= x < was.w,
    ensures
        now.c == was.c && now.h == was.h && now.w == was.w,
        now.data@.len() == now.c * now.h * now.w,
        ({
            let owned = t.y0 * scale <= y < t.y1 * scale && t.x0 * scale <= x < t.x1 * scale;
            now.data@[(c * was.h + y) * was.w + x] == if owned {
                up[(c * ((t.y1p - t.y0p) * scale) + y - t.y0p * scale) * ((t.x1p - t.x0p) * scale)
                    + x - t.x0p * scale]
            } else {
                was.data@[(c * was.h + y) * was.w + x]
            }
        }),
{
    assert(was.has(c, y, x));
    assert(now.px(c, y, x) == now.data@[(c * was.h + y) * was.w + x]);
}

/// What loading a file gives, for each frame that the decoder may find in it.
pub proof fn loading_is_the_decoded_frame<T: Copy, S: Samples<T>>(
    ops: &S,
    src: &[u8],
    r: Result<Image<T>, ImageError>,
)
    requires
        call_ensures(load_rgb_stream::<T, S>, (ops, src), r),
    ensures
        match png_decoded(src@, usize::BITS as int) {
            Err(t) => r matches Err(ImageError::Decode(s)) && s@ == t,
            Ok((w, h, colour, depth, bytes)) => {
                if colour == 3 {
                    r matches Err(ImageError::Indexed)
                } else if depth != 8 && depth != 16 {
                    r matches Err(ImageError::Depth(d)) && d == depth
                } else if 3 * w * h > usize::MAX {
                    r matches Err(ImageError::TooLarge)
                } else {
                    r matches Ok(img) && img.w == w && img.h == h && img.data@.len() == 3 * w * h
                }
            },
        },
{
}

/// Each value of a loaded image is one sample of its pixel: gray serves all three
/// channels, and alpha none. A sample of two bytes has the high one first.
pub proof fn loaded_values_are_samples<T: Copy, S: Samples<T>>(
    ops: &S,
    src: &[u8],
    img: Image<T>,
    c: int,
    y: int,
    x: int,
)
    requires
        call_ensures(load_rgb_stream::<T, S>, (ops, src), Ok(img)),
        0 <= c < 3,
        0 <= y < img.h,
        0 <= x < img.w,
    ensures
        ({
            let (w, h, colour, depth, bytes) = png_decoded(src@, usize::BITS as int)->Ok_0;
            let i = y * w + x;
            let v = img.data@[(c * h + y) * w + x];
            &&& img.w == w && img.h == h
            &&& depth == 8 || depth == 16
            &&& colour == 0 && depth == 8 ==> call_ensures(
                <S as Samples<T>>::from_sample,
                (ops, bytes[i] as u16, 255u16),
                v,
            )
            &&& colour == 4 && depth == 8 ==> call_ensures(
                <S as Samples<T>>::from_sample,
                (ops, bytes[2 * i] as u16, 255u16),
                v,
            )
            &&& colour == 2 && depth == 8 ==> call_ensures(
                <S as Samples<T>>::from_sample,
                (ops, bytes[3 * i + c] as u16, 255u16),
                v,
            )
            &&& colour == 6 && depth == 8 ==> call_ensures(
                <S as Samples<T>>::from_sample,
                (ops, bytes[4 * i + c] as u16, 255u16),
                v,
            )
            &&& colour == 0 && depth == 16 ==> call_ensures(
                <S as Samples<T>>::from_sample,
                (ops, (256 * bytes[2 * i] + bytes[2 * i + 1]) as u16, 65535u16),
                v,
            )
            &&& colour == 4 && depth == 16 ==> call_ensures(
                <S as Samples<T>>::from_sample,
                (ops, (256 * bytes[4 * i] + bytes[4 * i + 1]) as u16, 65535u16),
                v,
            )
            &&& colour == 2 && depth == 16 ==> call_ensures(
                <S as Samples<T>>::from_sample,
                (ops, (256 * bytes[6 * i + 2 * c] + bytes[6 * i + 2 * c + 1]) as u16, 65535u16),
                v,
            )
            &&& colour == 6 && depth == 16 ==> call_ensures(
                <S as Samples<T>>::from_sample,
                (ops, (256 * bytes[8 * i + 2 * c] + bytes[8 * i + 2 * c + 1]) as u16, 65535u16),
                v,
            )
        }),
{
    let f = png_decoded(src@, usize::BITS as int)->Ok_0;
    let (w, h, i) = (img.w as int, img.h as int, y * img.w + x);
    lemma_cell(3, h, w, c, y, x);
    lemma_cell(1, h, w, 0, y, x);
    assert(h * w == w * h) by (nonlinear_arith);
    assert((0 * h + y) * w == y * w);
    assert(loaded(ops, png_decoded(src@, usize::BITS as int), Ok(img)));
    assert(pixels_of(ops, f, img));
    let v = img.data@[c * (img.w * img.h) + i];
    assert(v == img.data@[(c * h + y) * w + x]);
    let k = source_channel(f.2, c);
    assert(from_sample_is(ops, sample(f, i, k) as u16, full_sample(f), v));
    assert(samples(f.2) == 1 ==> i * samples(f.2) + k == i);
    assert(samples(f.2) == 2 ==> i * samples(f.2) + k == 2 * i);
    assert(samples(f.2) == 3 ==> i * samples(f.2) == 3 * i) by (nonlinear_arith);
    assert(samples(f.2) == 4 ==> i * samples(f.2) == 4 * i) by (nonlinear_arith);
}

/// The bytes of an image stand pixel by pixel, row by row, the channels together.
pub proof fn bytes_stand_pixel_by_pixel<T: Copy, S: Samples<T>>(
    ops: &S,
    img: &Image<T>,
    out: Vec<u8>,
    c: int,
    y: int,
    x: int,
)
    requires
        call_ensures(Image::<T>::to_rgb8::<S>, (img, ops), out),
        0 <= c < 3,
        0 <= y < img.h,
        0 <= x < img.w,
    ensures
        out@.len() == img.w * img.h * 3,
        call_ensures(
            <S as Samples<T>>::to_byte,
            (ops, img.data@[(c * img.h + y) * img.w + x]),
            out@[3 * (y * img.w + x) + c],
        ),
{
    let (w, h, i) = (img.w as int, img.h as int, y * img.w + x);
    lemma_cell(3, h, w, c, y, x);
    lemma_cell(1, h, w, 0, y, x);
    assert(h * w == w * h) by (nonlinear_arith);
    assert((0 * h + y) * w == y * w);
    assert(bytes_of(ops, *img, out@));
    assert(out@[i * 3 + c] == out@[3 * (y * img.w + x) + c]);
}

/// The messages of the errors.
pub proof fn image_messages(e: &ImageError, r: String)
    requires
        call_ensures(ImageError::message, (e,), r),
    ensures
        e matches ImageError::Decode(s) ==> r@ == s@,
        e matches ImageError::Indexed ==> r@ == "unsupported png colour type Indexed"@,
        e matches ImageError::Depth(d) ==> r@ == if d == 1 {
            "unsupported png bit depth One"@
        } else if d == 2 {
            "unsupported png bit depth Two"@
        } else {
            "unsupported png bit depth Four"@
        },
        e matches ImageError::TooLarge ==> r@ == "image too large"@,
{
}

} // verus!
