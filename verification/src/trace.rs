//! The convolution, spelled out: which products make an element, and in which order.

use vstd::prelude::*;

use crate::arith::Arith;
use crate::conv::Conv;
use crate::conv3x3::ConvCall;
use crate::grid::cell;
use crate::grid::lemma_cell;
use crate::taps::Taps;

verus! {

/// The channels of one tap, one by one.
proof fn lemma_channels<T, A: Arith<T>>(
    a: Taps<T>,
    ops: &A,
    oc: int,
    y: int,
    x: int,
    ky: int,
    kx: int,
    from: T,
    n: nat,
    r: T,
) -> (t: Seq<T>)
    requires
        0 <= ky < 3,
        0 <= kx < 3,
        a.tap_sum(ops, oc, y, x, ky * 3 + kx, from, n, r),
    ensures
        t.len() == n + 1,
        t[0] == from,
        t[n as int] == r,
        forall|ci: int|
            0 <= ci < n ==> call_ensures(
                <A as Arith<T>>::mul_acc,
                (
                    ops,
                    a.wt[((oc * a.c_in + ci) * 3 + ky) * 3 + kx],
                    a.src[(ci * a.h + (y + ky - 1)) * a.w + (x + kx - 1)],
                    t[ci],
                ),
                #[trigger] t[ci + 1],
            ),
    decreases n,
{
    let k = ky * 3 + kx;
    if n == 0 {
        seq![from]
    } else {
        let ci = n - 1;
        let p = choose|p: T|
            {
                &&& a.tap_sum(ops, oc, y, x, k, from, ci as nat, p)
                &&& #[trigger] crate::arith::mul_acc_is(
                    ops,
                    a.weight(oc, k, ci),
                    a.source(y, x, k, ci),
                    p,
                    r,
                )
            };
        let s = lemma_channels(a, ops, oc, y, x, ky, kx, from, ci as nat, p);
        let t = s.push(r);
        assert(k / 3 == ky && k % 3 == kx);
        assert((oc * a.c_in + ci) * 9 + k == ((oc * a.c_in + ci) * 3 + ky) * 3 + kx);
        assert forall|i: int| 0 <= i < n implies call_ensures(
            <A as Arith<T>>::mul_acc,
            (
                ops,
                a.wt[((oc * a.c_in + i) * 3 + ky) * 3 + kx],
                a.src[(i * a.h + (y + ky - 1)) * a.w + (x + kx - 1)],
                t[i],
            ),
            #[trigger] t[i + 1],
        ) by {
            if i < ci {
                assert(s[i + 1] == t[i + 1]);
            }
        }
        t
    }
}

/// The taps of one pixel, one by one.
pub(crate) proof fn lemma_taps<T, A: Arith<T>>(
    a: Taps<T>,
    ops: &A,
    oc: int,
    y: int,
    x: int,
    n: nat,
    r: T,
) -> (t: Seq<T>)
    requires
        0 <= a.c_in,
        n <= 9,
        a.pixel_sum(ops, oc, y, x, n, r),
    ensures
        t.len() == n * a.c_in + 1,
        t[0] == a.bias[oc],
        t[n * a.c_in] == r,
        forall|ky: int, kx: int, ci: int|
            0 <= ky < 3 && 0 <= kx < 3 && ky * 3 + kx < n && 0 <= ci < a.c_in ==> if 0 <= y + ky - 1
                < a.h && 0 <= x + kx - 1 < a.w {
                call_ensures(
                    <A as Arith<T>>::mul_acc,
                    (
                        ops,
                        a.wt[((oc * a.c_in + ci) * 3 + ky) * 3 + kx],
                        a.src[(ci * a.h + (y + ky - 1)) * a.w + (x + kx - 1)],
                        t[(ky * 3 + kx) * a.c_in + ci],
                    ),
                    #[trigger] t[(ky * 3 + kx) * a.c_in + ci + 1],
                )
            } else {
                t[(ky * 3 + kx) * a.c_in + ci + 1] == t[(ky * 3 + kx) * a.c_in + ci]
            },
    decreases n,
{
    if n == 0 {
        seq![r]
    } else {
        let k = n - 1;
        let (dy, dx) = (k / 3, k % 3);
        let p = choose|p: T|
            {
                &&& a.pixel_sum(ops, oc, y, x, k as nat, p)
                &&& #[trigger] a.tap(ops, oc, y, x, k, p, r)
            };
        let s = lemma_taps(a, ops, oc, y, x, k as nat, p);
        let u = if 0 <= y + dy - 1 < a.h && 0 <= x + dx - 1 < a.w {
            assert(a.inside(y, x, k));
            lemma_channels(a, ops, oc, y, x, dy, dx, p, a.c_in as nat, r)
        } else {
            assert(!a.inside(y, x, k));
            Seq::new((a.c_in + 1) as nat, |i: int| p)
        };
        let m = k * a.c_in;
        assert(n * a.c_in == m + a.c_in && 0 <= m) by (nonlinear_arith)
            requires
                m == k * a.c_in,
                n == k + 1,
                0 <= k,
                0 <= a.c_in,
        ;
        let t = s + u.skip(1);
        assert forall|ky: int, kx: int, ci: int|
            0 <= ky < 3 && 0 <= kx < 3 && ky * 3 + kx < n && 0 <= ci < a.c_in implies if 0 <= y + ky
            - 1 < a.h && 0 <= x + kx - 1 < a.w {
            call_ensures(
                <A as Arith<T>>::mul_acc,
                (
                    ops,
                    a.wt[((oc * a.c_in + ci) * 3 + ky) * 3 + kx],
                    a.src[(ci * a.h + (y + ky - 1)) * a.w + (x + kx - 1)],
                    t[(ky * 3 + kx) * a.c_in + ci],
                ),
                #[trigger] t[(ky * 3 + kx) * a.c_in + ci + 1],
            )
        } else {
            t[(ky * 3 + kx) * a.c_in + ci + 1] == t[(ky * 3 + kx) * a.c_in + ci]
        } by {
            let j = ky * 3 + kx;
            if j < k {
                assert(0 <= j * a.c_in && j * a.c_in + a.c_in <= m) by (nonlinear_arith)
                    requires
                        0 <= j < k,
                        m == k * a.c_in,
                        0 <= a.c_in,
                ;
                let i = j * a.c_in + ci;
                assert(t[i] == s[i] && t[i + 1] == s[i + 1]);
                assert(s[(ky * 3 + kx) * a.c_in + ci + 1] == s[i + 1]);
            } else {
                assert(ky == dy && kx == dx);
                assert(t[m + ci] == u[ci]);
                assert(t[m + ci + 1] == u[ci + 1]);
            }
        }
        t
    }
}

/// An element of a convolution is its bias and, over every row `ky` and column `kx`
/// of the kernel whose source pixel lies in the image, and over every channel, the
/// products of weight and source, added in this order; then the leaky rectifier, if
/// asked for, and then the scaled operand, if there is one. The sums on the way are
/// `r.0`, and `r.1` is what the last of them is rectified to.
pub proof fn element_is_its_products<T, A: Arith<T>>(
    ops: &A,
    src: &[T],
    c_in: usize,
    conv: &Conv<T>,
    h: usize,
    w: usize,
    act: bool,
    res: Option<(&[T], T)>,
    out: Seq<T>,
    oc: int,
    y: int,
    x: int,
) -> (r: (Seq<T>, T))
    requires
        (ConvCall { src, c_in, conv, h, w, act, res }).wf(),
        (ConvCall { src, c_in, conv, h, w, act, res }).taps().plane(
            ops,
            conv.c_out as int,
            act,
            (ConvCall { src, c_in, conv, h, w, act, res }).res_view(),
            out,
        ),
        0 <= oc < conv.c_out,
        0 <= y < h,
        0 <= x < w,
    ensures
        r.0.len() == 9 * c_in + 1,
        r.0[0] == conv.bias@[oc],
        forall|ky: int, kx: int, ci: int|
            0 <= ky < 3 && 0 <= kx < 3 && 0 <= ci < c_in ==> if 0 <= y + ky - 1 < h && 0 <= x + kx
                - 1 < w {
                call_ensures(
                    <A as Arith<T>>::mul_acc,
                    (
                        ops,
                        conv.w@[((oc * c_in + ci) * 3 + ky) * 3 + kx],
                        src@[(ci * h + (y + ky - 1)) * w + (x + kx - 1)],
                        r.0[(ky * 3 + kx) * c_in + ci],
                    ),
                    #[trigger] r.0[(ky * 3 + kx) * c_in + ci + 1],
                )
            } else {
                r.0[(ky * 3 + kx) * c_in + ci + 1] == r.0[(ky * 3 + kx) * c_in + ci]
            },
        if act {
            ||| {
                &&& call_ensures(<A as Arith<T>>::at_least_zero, (ops, r.0[9 * c_in]), true)
                &&& r.1 == r.0[9 * c_in]
            }
            ||| {
                &&& call_ensures(<A as Arith<T>>::at_least_zero, (ops, r.0[9 * c_in]), false)
                &&& exists|fifth: T|
                    #[trigger] call_ensures(<A as Arith<T>>::fifth, (ops,), fifth) && call_ensures(
                        <A as Arith<T>>::times,
                        (ops, fifth, r.0[9 * c_in]),
                        r.1,
                    )
            }
        } else {
            r.1 == r.0[9 * c_in]
        },
        match res {
            None => out[(oc * h + y) * w + x] == r.1,
            Some((operand, factor)) => exists|m: T|
                #[trigger] call_ensures(
                    <A as Arith<T>>::times,
                    (ops, factor, operand@[(oc * h + y) * w + x]),
                    m,
                ) && call_ensures(
                    <A as Arith<T>>::plus,
                    (ops, r.1, m),
                    out[(oc * h + y) * w + x],
                ),
        },
{
    let call = ConvCall { src, c_in, conv, h, w, act, res };
    let a = call.taps();
    let e = out[(oc * h + y) * w + x];
    assert(out[cell(a.h, a.w, oc, y, x)] == e);
    assert(a.value(ops, act, call.res_view(), oc, y, x, e));
    let s = choose|s: T|
        {
            &&& #[trigger] a.pixel_sum(ops, oc, y, x, 9, s)
            &&& crate::taps::finished(ops, act, a.res_at(call.res_view(), oc, y, x), s, e)
        };
    let t = lemma_taps(a, ops, oc, y, x, 9, s);
    assert(9nat * a.c_in == 9 * c_in);
    assert forall|ky: int, kx: int, ci: int|
        0 <= ky < 3 && 0 <= kx < 3 && 0 <= ci < c_in implies if 0 <= y + ky - 1 < h && 0 <= x + kx
        - 1 < w {
        call_ensures(
            <A as Arith<T>>::mul_acc,
            (
                ops,
                conv.w@[((oc * c_in + ci) * 3 + ky) * 3 + kx],
                src@[(ci * h + (y + ky - 1)) * w + (x + kx - 1)],
                t[(ky * 3 + kx) * c_in + ci],
            ),
            #[trigger] t[(ky * 3 + kx) * c_in + ci + 1],
        )
    } else {
        t[(ky * 3 + kx) * c_in + ci + 1] == t[(ky * 3 + kx) * c_in + ci]
    } by {
        assert(t[(ky * 3 + kx) * a.c_in + ci + 1] == t[(ky * 3 + kx) * c_in + ci + 1]);
        if 0 <= y + ky - 1 < h && 0 <= x + kx - 1 < w {
            lemma_cell(c_in as int, h as int, w as int, ci, y + ky - 1, x + kx - 1);
        }
    }
    let v = choose|v: T|
        #[trigger] crate::taps::activated(ops, act, s, v) && crate::taps::joined(
            ops,
            a.res_at(call.res_view(), oc, y, x),
            v,
            e,
        );
    assert(s == t[9 * c_in]);
    (t, v)
}

} // verus!
