//! Planes, files, units of work and buffers, spelled out.

use vstd::prelude::*;

use crate::arith::Arith;
use crate::codec::png_encoded;
use crate::conv::tap_pos;
use crate::conv::tap_pos_ci;
use crate::conv::Conv;
use crate::conv3x3::band_count;
use crate::conv3x3::band_tasks;
use crate::conv3x3::oc_group;
use crate::conv3x3::task_at;
use crate::conv3x3::y_iter;
use crate::conv3x3::BandTask;
use crate::conv3x3::ConvCall;
use crate::dump::bits_are;
use crate::dump::bits_of;
use crate::dump::bytes_read_back;
use crate::dump::dump_bytes;
use crate::dump::dump_path;
use crate::dump::dump_reads_back;
use crate::dump::header;
use crate::dump::le;
use crate::dump::le_all;
use crate::dump::le_value;
use crate::dump::Bits;
use crate::grid::lemma_quot_rem;
use crate::image::save_rgb_stream;
use crate::image::Image;
use crate::launch::Addresses;
use crate::layout::launch_finds_its_weights;
use crate::layout::lemma_params;
use crate::layout::located;
use crate::layout::pack;
use crate::layout::Layout;
use crate::model::params;
use crate::model::Geometry;
use crate::model::Model;
use crate::plane::copied;
use crate::plane::filled;
use crate::plane::written;
use crate::plane::Plane;
use crate::program::Buf;
use crate::program::Extent;
use crate::taps::activated;
use crate::taps::joined;
use crate::trace::lemma_taps;

verus! {

/// A plane that is filled holds the value everywhere.
pub proof fn filling_fills<T: Copy>(
    n: usize,
    v: T,
    many: Vec<T>,
    c: usize,
    h: usize,
    w: usize,
    p: Plane<T>,
    img: Image<T>,
)
    requires
        call_ensures(filled::<T>, (n, v), many),
        call_ensures(Plane::<T>::new, (c, h, w, v), p),
        call_ensures(Image::<T>::new, (w, h, v), img),
    ensures
        many@.len() == n,
        forall|i: int| 0 <= i < n ==> #[trigger] many@[i] == v,
        p.c == c && p.h == h && p.w == w && p.data@.len() == c * h * w,
        forall|i: int| 0 <= i < p.data@.len() ==> #[trigger] p.data@[i] == v,
        img.h == h && img.w == w && img.data@.len() == 3 * w * h,
        forall|i: int| 0 <= i < img.data@.len() ==> #[trigger] img.data@[i] == v,
{
}

/// Reading a plane, a part of a sequence, or a channel of an image.
pub proof fn reading_reads<T: Copy>(
    p: &Plane<T>,
    c: usize,
    y: usize,
    x: usize,
    v: T,
    src: &[T],
    lo: usize,
    hi: usize,
    part: Vec<T>,
    img: &Image<T>,
    ch: usize,
    plane: &[T],
)
    requires
        call_ensures(Plane::<T>::get, (p, c, y, x), v),
        call_ensures(copied::<T>, (src, lo, hi), part),
        call_ensures(Image::<T>::plane, (img, ch), plane),
        lo <= hi <= src@.len(),
        ch < 3,
        img.wf(),
    ensures
        v == p.data@[(c * p.h + y) * p.w + x],
        part@.len() == hi - lo,
        forall|i: int| lo <= i < hi ==> part@[i - lo] == #[trigger] src@[i],
        plane@.len() == img.w * img.h,
        forall|i: int|
            0 <= i < img.w * img.h ==> #[trigger] plane@[i] == img.data@[ch * (img.w * img.h) + i],
{
    let hw = img.w * img.h;
    assert(0 <= ch * hw && (ch + 1) * hw == ch * hw + hw && (ch + 1) * hw <= 3 * hw)
        by (nonlinear_arith)
        requires
            ch < 3,
            hw == img.w * img.h,
            0 <= img.w,
            0 <= img.h,
    ;
    assert(3 * img.w * img.h == 3 * hw) by (nonlinear_arith)
        requires
            hw == img.w * img.h,
    ;
}

/// A plane made by a function holds what the function gives at each place.
pub proof fn planes_of_a_function<T: Copy, F: Fn(usize, usize, usize) -> T>(
    c: usize,
    h: usize,
    w: usize,
    f: F,
    r: Plane<T>,
    i: usize,
    y: usize,
    x: usize,
)
    requires
        call_ensures(Plane::<T>::from_fn::<F>, (c, h, w, f), r),
        i < c,
        y < h,
        x < w,
    ensures
        r.c == c && r.h == h && r.w == w && r.data@.len() == c * h * w,
        call_ensures(f, (i, y, x), r.data@[(i * h + y) * w + x]),
{
    assert(r.px(i as int, y as int, x as int) == r.data@[(i * h + y) * w + x]);
}

/// Writing replaces a range and nothing else.
pub proof fn writing_replaces_a_range<T>(dst: Seq<T>, at: int, src: Seq<T>, i: int)
    requires
        0 <= at,
        at + src.len() <= dst.len(),
        0 <= i < dst.len(),
    ensures
        written(dst, at, src).len() == dst.len(),
        at <= i < at + src.len() ==> written(dst, at, src)[i] == src[i - at],
        i < at || at + src.len() <= i ==> written(dst, at, src)[i] == dst[i],
{
}

proof fn lemma_le(n: int)
    requires
        0 <= n <= u32::MAX,
    ensures
        le(n).len() == 4,
        le(n)[0] + 0x100 * le(n)[1] + 0x1_0000 * le(n)[2] + 0x100_0000 * le(n)[3] == n,
{
    bytes_read_back(n as u32);
}

/// A dumped plane begins with its channels, rows and columns, each by its low 32 bits in
/// four bytes with the low one first.
pub proof fn dumps_begin_with_the_size<T: Copy, B: Bits<T>>(ops: &B, p: &Plane<T>, out: Vec<u8>)
    requires
        call_ensures(dump_bytes::<T, B>, (ops, p), out),
    ensures
        out@.len() >= 12,
        out@[0] + 0x100 * out@[1] + 0x1_0000 * out@[2] + 0x100_0000 * out@[3] == p.c as int
            % 0x1_0000_0000,
        out@[4] + 0x100 * out@[5] + 0x1_0000 * out@[6] + 0x100_0000 * out@[7] == p.h as int
            % 0x1_0000_0000,
        out@[8] + 0x100 * out@[9] + 0x1_0000 * out@[10] + 0x100_0000 * out@[11] == p.w as int
            % 0x1_0000_0000,
{
    let bits = choose|bits: Seq<u32>|
        #[trigger] bits_of(ops, p, bits) && out@ == header(p) + le_all(bits);
    let m = 0x1_0000_0000int;
    lemma_le(p.c as int % m);
    lemma_le(p.h as int % m);
    lemma_le(p.w as int % m);
    let (c, h, w) = (le(p.c as int % m), le(p.h as int % m), le(p.w as int % m));
    assert(header(p) == c + h + w);
    assert(out@[0] == c[0] && out@[1] == c[1] && out@[2] == c[2] && out@[3] == c[3]);
    assert(out@[4] == h[0] && out@[5] == h[1] && out@[6] == h[2] && out@[7] == h[3]);
    assert(out@[8] == w[0] && out@[9] == w[1] && out@[10] == w[2] && out@[11] == w[3]);
}

/// Behind the size a dumped plane has the bits of its values, each in four bytes alike.
/// The bits are returned.
pub proof fn dumps_hold_the_bits<T: Copy, B: Bits<T>>(
    ops: &B,
    p: &Plane<T>,
    out: Vec<u8>,
    i: int,
) -> (b: u32)
    requires
        call_ensures(dump_bytes::<T, B>, (ops, p), out),
        0 <= i < p.data@.len(),
    ensures
        out@.len() == 12 + 4 * p.data@.len(),
        call_ensures(<B as Bits<T>>::bits, (ops, p.data@[i]), b),
        out@[12 + 4 * i] + 0x100 * out@[13 + 4 * i] + 0x1_0000 * out@[14 + 4 * i] + 0x100_0000
            * out@[15 + 4 * i] == b,
{
    let bits = choose|bits: Seq<u32>|
        #[trigger] bits_of(ops, p, bits) && out@ == header(p) + le_all(bits);
    assert(bits_are(ops, p.data@[i], bits[i]));
    dump_reads_back(p, bits, i);
    let part = out@.subrange(12 + 4 * i, 16 + 4 * i);
    assert(part[0] == out@[12 + 4 * i] && part[1] == out@[13 + 4 * i]);
    assert(part[2] == out@[14 + 4 * i] && part[3] == out@[15 + 4 * i]);
    assert(le_value(part) == bits[i]);
    bits[i]
}

/// A dump's path is the directory, a slash, the name and the ending.
pub proof fn dumps_are_named_so(dir: &str, name: &str, r: String)
    requires
        call_ensures(dump_path, (dir, name), r),
    ensures
        r@ == dir@ + "/"@ + name@ + ".f32"@,
{
}

/// A saved image is the encoder's file of its width, its height and its bytes, or the
/// text of the encoder's error.
pub proof fn saving_hands_the_image_over(
    w: usize,
    h: usize,
    rgb: &[u8],
    r: Result<Vec<u8>, String>,
)
    requires
        call_ensures(save_rgb_stream, (w, h, rgb), r),
    ensures
        w <= u32::MAX && h <= u32::MAX && rgb@.len() == w * h * 3 ==> (r is Ok <==> w > 0 && h > 0),
        match (r, png_encoded(w as u32, h as u32, rgb@)) {
            (Ok(file), Ok(f)) => file@ == f,
            (Err(text), Err(t)) => text@ == t,
            _ => false,
        },
{
}

/// A convolution keeps its weights as they came, and a second time with the input channel
/// innermost.
pub proof fn weights_are_kept_twice<T: Copy>(
    w: &[T],
    bias: &[T],
    c_in: usize,
    c_out: usize,
    r: Conv<T>,
    oc: int,
    ky: int,
    kx: int,
    ci: int,
)
    requires
        call_ensures(Conv::<T>::from_parts, (w, bias, c_in, c_out), r),
        0 <= oc < c_out,
        0 <= ky < 3,
        0 <= kx < 3,
        0 <= ci < c_in,
    ensures
        r.w@ == w@ && r.bias@ == bias@ && r.c_out == c_out,
        r.w_cpu_ci@[((oc * 3 + ky) * 3 + kx) * c_in + ci] == w@[((oc * c_in + ci) * 3 + ky) * 3
            + kx],
{
    let k = ky * 3 + kx;
    assert(r.w_cpu_ci@[tap_pos_ci(c_in as int, oc, k, ci)] == r.w@[tap_pos(
        c_in as int,
        oc,
        k,
        ci,
    )]);
    assert((oc * 3 + ky) * 3 + kx == oc * 9 + k);
    assert(((oc * c_in + ci) * 3 + ky) * 3 + kx == (oc * c_in + ci) * 9 + k);
}

/// The row that tap row `ky` reads is one above, the same or one below.
pub proof fn tap_rows(y: usize, ky: usize, h: usize, r: Option<usize>)
    requires
        call_ensures(y_iter, (y, ky, h), r),
        y < h,
        ky < 3,
    ensures
        ky == 0 && y == 0 ==> r is None,
        ky == 2 && y + 1 == h ==> r is None,
        ky == 0 && y > 0 ==> r is Some && r->0 == y - 1,
        ky == 1 ==> r is Some && r->0 == y,
        ky == 2 && y + 1 < h ==> r is Some && r->0 == y + 1,
{
}

/// One or two output channels are computed together where that was asked for, and three
/// otherwise.
pub proof fn channels_together(asked: Option<usize>, r: usize)
    requires
        call_ensures(oc_group, (asked,), r),
    ensures
        asked == Some(1usize) ==> r == 1,
        asked == Some(2usize) ==> r == 2,
        asked != Some(1usize) && asked != Some(2usize) ==> r == 3,
{
}

/// The number of bands is the largest of 8, 4 and 2 that divides the height and, times the
/// channels, gives every thread four tasks; it is 1 where none does.
pub proof fn bands_divide_the_height(nthreads: usize, c_out: usize, h: usize, r: usize, m: int)
    requires
        call_ensures(band_count, (nthreads, c_out, h), r),
        m == 2 || m == 4 || m == 8,
    ensures
        ({
            let per = if c_out == 0 {
                1
            } else {
                c_out as int
            };
            &&& r == 1 || r == 2 || r == 4 || r == 8
            &&& h as int % r as int == 0
            &&& r > 1 ==> r * per >= 4 * nthreads
            &&& m > r && h as int % m == 0 ==> m * per < 4 * nthreads
        }),
{
    let per = if c_out == 0 {
        1
    } else {
        c_out as int
    };
    let all = 4 * nthreads;
    let want = (all + per - 1) / per;
    vstd::arithmetic::div_mod::lemma_fundamental_div_mod(all + per - 1, per);
    let k = r as int;
    assert(k >= want ==> k * per >= all) by (nonlinear_arith)
        requires
            per * want <= all + per - 1 < per * want + per,
            0 < per,
    ;
    assert(m < want ==> m * per < all) by (nonlinear_arith)
        requires
            per * want <= all + per - 1 < per * want + per,
            0 < per,
    ;
}

/// The tasks of a convolution part its output: every row of every channel is in one of
/// them, whose number is returned, and in no other.
pub proof fn tasks_part_the_output(
    c_out: usize,
    group: usize,
    nband: usize,
    rows: usize,
    r: Vec<BandTask>,
    oc: int,
    y: int,
) -> (i: int)
    requires
        call_ensures(band_tasks, (c_out, group, nband, rows), r),
        0 < group,
        0 < nband,
        nband * rows <= usize::MAX,
        0 <= oc < c_out,
        0 <= y < nband * rows,
    ensures
        0 <= i < r@.len(),
        ({
            let t = r@[i];
            &&& t.oc_base <= oc < t.oc_base + t.n_oc <= c_out
            &&& t.y0 <= y < t.y0 + t.rows <= nband * rows
            &&& t.n_oc <= group
            &&& t.rows == rows
        }),
        forall|m: int|
            0 <= m < r@.len() && (#[trigger] r@[m]).oc_base <= oc < r@[m].oc_base + r@[m].n_oc
                && r@[m].y0 <= y < r@[m].y0 + r@[m].rows ==> m == i,
{
    let (c, g, n, h) = (c_out as int, group as int, nband as int, rows as int);
    let (a, b) = (oc / g, y / h);
    assert(0 < h) by (nonlinear_arith)
        requires
            0 <= y < n * h,
            0 <= h,
    ;
    vstd::arithmetic::div_mod::lemma_fundamental_div_mod(oc, g);
    vstd::arithmetic::div_mod::lemma_fundamental_div_mod(y, h);
    vstd::arithmetic::div_mod::lemma_fundamental_div_mod(c + g - 1, g);
    let ng = (c + g - 1) / g;
    assert(0 <= a < ng && g * a == a * g && 0 <= a * g <= oc) by (nonlinear_arith)
        requires
            oc == g * a + oc % g,
            0 <= oc % g < g,
            0 <= oc < c,
            c + g - 1 < g * ng + g,
            0 < g,
    ;
    assert(0 <= b < n && h * b == b * h && 0 <= b * h <= y && b * h + h <= n * h)
        by (nonlinear_arith)
        requires
            y == h * b + y % h,
            0 <= y % h < h,
            0 <= y < n * h,
            0 < h,
    ;
    let i = a * n + b;
    assert(0 <= i < ng * n) by (nonlinear_arith)
        requires
            i == a * n + b,
            0 <= a < ng,
            0 <= b < n,
    ;
    lemma_quot_rem(a, n, b);
    assert(r@[i] == task_at(c, g, n, h, i));
    assert forall|m: int|
        0 <= m < r@.len() && (#[trigger] r@[m]).oc_base <= oc < r@[m].oc_base + r@[m].n_oc
            && r@[m].y0 <= y < r@[m].y0 + r@[m].rows implies m == i by {
        let (p, q) = (m / n, m % n);
        assert(r@[m] == task_at(c, g, n, h, m));
        vstd::arithmetic::div_mod::lemma_fundamental_div_mod(m, n);
        assert(0 <= q < n && 0 <= p < ng && n * p == p * n) by (nonlinear_arith)
            requires
                m == n * p + q,
                0 <= q < n,
                0 <= m < ng * n,
                0 < n,
                q == m % n,
        ;
        assert(0 <= p * g < c && 0 <= q * h && q * h + h <= n * h) by (nonlinear_arith)
            requires
                0 <= p < ng,
                0 <= q < n,
                g * ng <= c + g - 1,
                0 < g,
                0 < h,
        ;
        assert(p == a) by (nonlinear_arith)
            requires
                p * g <= oc < p * g + g,
                a * g <= oc < a * g + g,
                0 < g,
        ;
        assert(q == b) by (nonlinear_arith)
            requires
                q * h <= y < q * h + h,
                b * h <= y < b * h + h,
                0 < h,
        ;
    }
    i
}

/// An element of a band is made as an element of the convolution is: the bias, the
/// products of the taps that lie in the image, the rectifier and the scaled operand. The
/// sums on the way are returned, and what the last is rectified to.
pub proof fn bands_hold_elements<'a, T: Copy, A: Arith<T>>(
    call: ConvCall<'a, T>,
    ops: &A,
    task: &BandTask,
    outs: Vec<Vec<T>>,
    o: int,
    y: int,
    x: int,
) -> (r: (Seq<T>, T))
    requires
        call.wf(),
        call_ensures(ConvCall::<'a, T>::conv_band::<A>, (&call, ops, task), outs),
        0 <= o < task.n_oc,
        task.y0 <= y < task.y0 + task.rows <= call.h,
        task.oc_base + task.n_oc <= call.conv.c_out,
        0 <= x < call.w,
    ensures
        ({
            let (oc, h, w, c_in) = (task.oc_base + o, call.h as int, call.w as int, call.c_in as int);
            let e = outs@[o]@[(y - task.y0) * w + x];
            let s = r.0[9 * c_in];
            &&& outs@.len() == task.n_oc
            &&& outs@[o]@.len() == task.rows * w
            &&& r.0.len() == 9 * c_in + 1
            &&& r.0[0] == call.conv.bias@[oc]
            &&& forall|ky: int, kx: int, ci: int|
                0 <= ky < 3 && 0 <= kx < 3 && 0 <= ci < c_in ==> if 0 <= y + ky - 1 < h && 0 <= x
                    + kx - 1 < w {
                    call_ensures(
                        <A as Arith<T>>::mul_acc,
                        (
                            ops,
                            call.conv.w@[((oc * c_in + ci) * 3 + ky) * 3 + kx],
                            call.src@.take(c_in * h * w)[(ci * h + (y + ky - 1)) * w + (x + kx
                                - 1)],
                            r.0[(ky * 3 + kx) * c_in + ci],
                        ),
                        #[trigger] r.0[(ky * 3 + kx) * c_in + ci + 1],
                    )
                } else {
                    r.0[(ky * 3 + kx) * c_in + ci + 1] == r.0[(ky * 3 + kx) * c_in + ci]
                }
            &&& if call.act {
                ||| call_ensures(<A as Arith<T>>::at_least_zero, (ops, s), true) && r.1 == s
                ||| {
                    &&& call_ensures(<A as Arith<T>>::at_least_zero, (ops, s), false)
                    &&& exists|fifth: T|
                        #[trigger] call_ensures(<A as Arith<T>>::fifth, (ops,), fifth)
                            && call_ensures(<A as Arith<T>>::times, (ops, fifth, s), r.1)
                }
            } else {
                r.1 == s
            }
            &&& match call.res {
                None => e == r.1,
                Some((operand, factor)) => exists|m: T|
                    #[trigger] call_ensures(
                        <A as Arith<T>>::times,
                        (ops, factor, operand@[(oc * h + y) * w + x]),
                        m,
                    ) && call_ensures(<A as Arith<T>>::plus, (ops, r.1, m), e),
            }
        }),
{
    let (oc, h, w, c_in) = (task.oc_base + o, call.h as int, call.w as int, call.c_in as int);
    let a = call.taps();
    let i = (y - task.y0) * w + x;
    lemma_quot_rem(y - task.y0, w, x);
    assert(0 <= i < task.rows * w) by (nonlinear_arith)
        requires
            i == (y - task.y0) * w + x,
            0 <= y - task.y0 < task.rows,
            0 <= x < w,
    ;
    let e = outs@[o]@[i];
    assert(call.band(ops, *task, outs@));
    assert(outs@[o]@.len() == task.rows * call.w);
    assert(call.value(ops, oc, task.y0 + i / w, i % w, e));
    let s = choose|s: T|
        {
            &&& #[trigger] a.pixel_sum(ops, oc, y, x, 9, s)
            &&& crate::taps::finished(ops, call.act, a.res_at(call.res_view(), oc, y, x), s, e)
        };
    let t = lemma_taps(a, ops, oc, y, x, 9, s);
    assert(9nat * a.c_in == 9 * c_in);
    let v = choose|v: T|
        #[trigger] activated(ops, call.act, s, v) && joined(
            ops,
            a.res_at(call.res_view(), oc, y, x),
            v,
            e,
        );
    (t, v)
}

/// The parameters stand end to end, the weights of a convolution before its biases and
/// each convolution behind the one before it.
pub proof fn parameters_stand_end_to_end<T>(m: &Model<T>, lay: Layout, l: int)
    requires
        call_ensures(Layout::new::<T>, (m,), lay),
        0 <= l < 15 * m.blocks@.len() + 5,
    ensures
        lay.loc(0).w == 0,
        lay.loc(l).b == lay.loc(l).w + m.layer(l).w@.len(),
        lay.loc(l + 1).w == lay.loc(l).b + m.layer(l).bias@.len(),
        ({
            let n = (15 * m.blocks@.len() + 5) as int;
            &&& lay.loc(n).b == lay.loc(n).w + m.layer(n).w@.len()
            &&& lay.floats == lay.loc(n).b + m.layer(n).bias@.len()
        }),
{
    let n = 15 * m.blocks@.len() + 5;
    assert(located(m, 0, lay.loc(0)) && located(m, l, lay.loc(l)));
    assert(located(m, l + 1, lay.loc(l + 1)) && located(m, n as int, lay.loc(n as int)));
    assert((l + 1) as nat - 1 == l);
    assert((n + 1) as nat - 1 == n);
    assert(params(m, (l + 1) as nat) == params(m, l as nat) + m.layer(l).w@.len() + m.layer(
        l,
    ).bias@.len()) by {
        let k = (l + 1) as nat;
        assert((k - 1) as nat == l as nat);
    }
    assert(params(m, (n + 1) as nat) == params(m, n as nat) + m.layer(n as int).w@.len() + m.layer(
        n as int,
    ).bias@.len()) by {
        let k = (n + 1) as nat;
        assert((k - 1) as nat == n as nat);
    }
}

/// The weight buffer holds each convolution's weights and biases at their places, and has
/// the model's bytes.
pub proof fn weight_buffer_holds_the_parameters<T: Copy>(
    m: &Model<T>,
    lay: &Layout,
    fill: T,
    host: Vec<T>,
    bytes: usize,
    l: int,
    i: int,
)
    requires
        lay.lays(m),
        call_ensures(pack::<T>, (m, lay, fill), host),
        call_ensures(Model::<T>::weight_bytes, (m,), bytes),
        0 <= l < 15 * m.blocks@.len() + 6,
    ensures
        host@.len() == lay.floats,
        bytes == 4 * lay.floats,
        0 <= i < m.layer(l).w@.len() ==> host@[lay.loc(l).w + i] == m.layer(l).w@[i],
        0 <= i < m.layer(l).bias@.len() ==> host@[lay.loc(l).b + i] == m.layer(l).bias@[i],
{
    launch_finds_its_weights(m, lay, l);
    assert(located(m, l, lay.loc(l)));
    lemma_params(m, 0, l as nat);
    let (at, c) = (lay.loc(l), m.layer(l));
    if 0 <= i < c.w@.len() {
        assert(host@.subrange(at.w as int, at.w + c.w@.len())[i] == host@[at.w + i]);
    }
    if 0 <= i < c.bias@.len() {
        assert(host@.subrange(at.b as int, at.b + c.bias@.len())[i] == host@[at.b + i]);
    }
}

/// The sizes on a device: the x2 model works on half the image, and the upsampled buffers
/// have twice and four times the working rows and columns.
pub proof fn device_sizes(g: &Geometry, iw: usize, ih: usize, e: Extent, b: Buf, n: usize)
    requires
        call_ensures(Extent::new, (g, iw, ih), e),
        call_ensures(Extent::buffer_len, (&e, b), n),
    ensures
        e.g == *g && e.iw == iw && e.ih == ih,
        g.scale == 2 ==> e.h == ih / 2 && e.w == iw / 2,
        g.scale != 2 ==> e.h == ih && e.w == iw,
        ({
            let (h, w, nf) = (e.h as int, e.w as int, g.num_feat as int);
            match b {
                Buf::Stage => n == g.in_ch * ih * iw,
                Buf::Feat => n == (if g.scale == 2 {
                    4 * g.in_ch
                } else {
                    g.in_ch as int
                }) * h * w,
                Buf::Ws => n == (nf + 4 * g.num_grow_ch) * h * w,
                Buf::Up1 => n == 4 * (nf * h * w),
                Buf::Up2 => n == 16 * (nf * h * w),
                Buf::Hr => n == 16 * (nf * h * w),
                Buf::Out => n == 16 * (g.out_ch * h * w),
                _ => n == nf * h * w,
            }
        }),
{
    let (h, w, nf, oc) = (e.h as int, e.w as int, g.num_feat as int, g.out_ch as int);
    assert(nf * (h * 2) * (w * 2) == 4 * (nf * h * w)) by (nonlinear_arith);
    assert(nf * (h * 4) * (w * 4) == 16 * (nf * h * w)) by (nonlinear_arith);
    assert(oc * (h * 4) * (w * 4) == 16 * (oc * h * w)) by (nonlinear_arith);
}

/// Each buffer has its own address.
pub proof fn buffers_have_their_addresses(a: &Addresses, b: Buf, r: u64)
    requires
        call_ensures(Addresses::get, (a, b), r),
    ensures
        r == match b {
            Buf::Stage => a.stage,
            Buf::Feat => a.feat,
            Buf::Ws => a.ws,
            Buf::Cur => a.cur,
            Buf::X5 => a.x5,
            Buf::Rdb => a.rdb,
            Buf::Save => a.save,
            Buf::Skip => a.skip,
            Buf::Body => a.body,
            Buf::Up1 => a.up1,
            Buf::Up2 => a.up2,
            Buf::Hr => a.hr,
            Buf::Out => a.out,
        },
{
}

} // verus!
