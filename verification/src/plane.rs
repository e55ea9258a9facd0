//! Planar tensors.

use vstd::prelude::*;

use crate::grid::cell;
use crate::grid::lemma_cell;

verus! {

/// A planar tensor `[c][h][w]`.
pub struct Plane<T> {
    pub c: usize,
    pub h: usize,
    pub w: usize,
    pub data: Vec<T>,
}

/// `n` copies of `v`.
pub fn filled<T: Copy>(n: usize, v: T) -> (r: Vec<T>)
    ensures
        r@ == Seq::new(n as nat, |i: int| v),
{
    let mut r: Vec<T> = Vec::with_capacity(n);
    while r.len() < n
        invariant
            r@.len() <= n,
            forall|i: int| 0 <= i < r@.len() ==> r@[i] == v,
        decreases n - r@.len(),
    {
        r.push(v);
    }
    r
}

/// A copy of `src[lo..hi]`.
pub fn copied<T: Copy>(src: &[T], lo: usize, hi: usize) -> (r: Vec<T>)
    requires
        lo <= hi <= src@.len(),
    ensures
        r@ == src@.subrange(lo as int, hi as int),
{
    let mut r: Vec<T> = Vec::with_capacity(hi - lo);
    let mut i: usize = lo;
    while i < hi
        invariant
            lo <= i <= hi <= src@.len(),
            r@ == src@.subrange(lo as int, i as int),
        decreases hi - i,
    {
        r.push(src[i]);
        i += 1;
    }
    r
}

/// Appends `src[lo..hi]` to `dst`.
pub fn append_range<T: Copy>(dst: &mut Vec<T>, src: &[T], lo: usize, hi: usize)
    requires
        lo <= hi <= src@.len(),
    ensures
        final(dst)@ == old(dst)@ + src@.subrange(lo as int, hi as int),
{
    let mut i: usize = lo;
    while i < hi
        invariant
            lo <= i <= hi <= src@.len(),
            dst@ == old(dst)@ + src@.subrange(lo as int, i as int),
        decreases hi - i,
    {
        dst.push(src[i]);
        i += 1;
    }
}

/// Writes all of `src` into `dst` from position `at` on.
pub fn write_at<T: Copy>(dst: &mut [T], at: usize, src: &[T])
    requires
        at + src@.len() <= old(dst)@.len(),
    ensures
        final(dst)@ == written(old(dst)@, at as int, src@),
{
    let mut i: usize = 0;
    let n = src.len();
    while i < n
        invariant
            n == src@.len(),
            i <= n,
            at + n <= old(dst)@.len(),
            dst@.len() == old(dst)@.len(),
            dst@ == written(old(dst)@, at as int, src@.take(i as int)),
        decreases n - i,
    {
        assert(dst.len() == dst@.len());
        dst[at + i] = src[i];
        i += 1;
        assert(dst@ =~= written(old(dst)@, at as int, src@.take(i as int)));
    }
    assert(src@.take(n as int) =~= src@);
}

/// `dst` with the values from position `at` on replaced by `src`.
pub open spec fn written<T>(dst: Seq<T>, at: int, src: Seq<T>) -> Seq<T> {
    Seq::new(
        dst.len(),
        |i: int|
            if at <= i < at + src.len() {
                src[i - at]
            } else {
                dst[i]
            },
    )
}

impl<T> Plane<T> {
    /// The data fills the shape.
    pub open spec fn wf(&self) -> bool {
        self.data@.len() == self.c * self.h * self.w
    }

    /// The value in channel `c`, row `y`, column `x`.
    pub open spec fn px(&self, c: int, y: int, x: int) -> T {
        self.data@[cell(self.h as int, self.w as int, c, y, x)]
    }

    /// Does the plane have these coordinates?
    pub open spec fn has(&self, c: int, y: int, x: int) -> bool {
        0 <= c < self.c && 0 <= y < self.h && 0 <= x < self.w
    }
}

impl<T: Copy> Plane<T> {
    /// A plane with every value `fill`.
    pub fn new(c: usize, h: usize, w: usize, fill: T) -> (r: Plane<T>)
        requires
            c * h <= usize::MAX,
            c * h * w <= usize::MAX,
        ensures
            r.wf(),
            r.c == c,
            r.h == h,
            r.w == w,
            r.data@ == Seq::new((c * h * w) as nat, |i: int| fill),
    {
        Plane { c, h, w, data: filled(c * h * w, fill) }
    }

    /// Values per channel.
    pub fn hw(&self) -> (r: usize)
        requires
            self.h * self.w <= usize::MAX,
        ensures
            r == self.h * self.w,
    {
        self.h * self.w
    }

    /// Reshapes in place: the values that were there first stay first, and what
    /// is new is `fill`.
    pub fn set(&mut self, c: usize, h: usize, w: usize, fill: T)
        requires
            c * h <= usize::MAX,
            c * h * w <= usize::MAX,
        ensures
            final(self).wf(),
            final(self).c == c,
            final(self).h == h,
            final(self).w == w,
            forall|i: int|
                0 <= i < c * h * w ==> #[trigger] final(self).data@[i] == if i < old(
                    self,
                ).data@.len() {
                    old(self).data@[i]
                } else {
                    fill
                },
    {
        self.c = c;
        self.h = h;
        self.w = w;
        let n = c * h * w;
        self.data.truncate(n);
        while self.data.len() < n
            invariant
                self.c == c,
                self.h == h,
                self.w == w,
                n == c * h * w,
                self.data@.len() <= n,
                old(self).data@.len() <= n ==> old(self).data@.len() <= self.data@.len(),
                old(self).data@.len() > n ==> self.data@.len() == n,
                forall|i: int|
                    0 <= i < self.data@.len() ==> #[trigger] self.data@[i] == if i < old(
                        self,
                    ).data@.len() {
                        old(self).data@[i]
                    } else {
                        fill
                    },
            decreases n - self.data@.len(),
        {
            self.data.push(fill);
        }
    }

    /// The value in channel `c`, row `y`, column `x`.
    pub fn get(&self, c: usize, y: usize, x: usize) -> (r: T)
        requires
            self.wf(),
            self.has(c as int, y as int, x as int),
        ensures
            r == self.px(c as int, y as int, x as int),
    {
        proof {
            lemma_cell(self.c as int, self.h as int, self.w as int, c as int, y as int, x as int);
            let (c, y, x, h, w) = (c as int, y as int, x as int, self.h as int, self.w as int);
            assert(0 <= c * h <= c * h + y <= (c * h + y) * w) by (nonlinear_arith)
                requires
                    0 <= c,
                    0 <= y < h,
                    1 <= w,
            ;
            assert(self.data.len() == self.data@.len());
        }
        self.data[(c * self.h + y) * self.w + x]
    }

    /// The plane whose value at each coordinate is what `f` gives there.
    pub fn from_fn<F: Fn(usize, usize, usize) -> T>(c: usize, h: usize, w: usize, f: F) -> (r:
        Plane<T>)
        requires
            c * h * w <= usize::MAX,
            forall|i: usize, y: usize, x: usize|
                i < c && y < h && x < w ==> #[trigger] call_requires(f, (i, y, x)),
        ensures
            r.wf(),
            r.c == c,
            r.h == h,
            r.w == w,
            forall|i: int, y: int, x: int|
                0 <= i < c && 0 <= y < h && 0 <= x < w ==> call_ensures(
                    f,
                    (i as usize, y as usize, x as usize),
                    #[trigger] r.px(i, y, x),
                ),
    {
        let mut data: Vec<T> = Vec::new();
        let mut i: usize = 0;
        while i < c
            invariant
                i <= c,
                c * h * w <= usize::MAX,
                data@.len() == i * h * w,
                forall|i: usize, y: usize, x: usize|
                    i < c && y < h && x < w ==> #[trigger] call_requires(f, (i, y, x)),
                filled_by(f, h as int, w as int, data@),
            decreases c - i,
        {
            let mut y: usize = 0;
            assert((i * h + 0) * w == i * h * w);
            while y < h
                invariant
                    i < c,
                    y <= h,
                    c * h * w <= usize::MAX,
                    data@.len() == (i * h + y) * w,
                    forall|i: usize, y: usize, x: usize|
                        i < c && y < h && x < w ==> #[trigger] call_requires(f, (i, y, x)),
                    filled_by(f, h as int, w as int, data@),
                decreases h - y,
            {
                let mut x: usize = 0;
                while x < w
                    invariant
                        i < c,
                        y < h,
                        x <= w,
                        c * h * w <= usize::MAX,
                        data@.len() == cell(h as int, w as int, i as int, y as int, x as int),
                        forall|i: usize, y: usize, x: usize|
                            i < c && y < h && x < w ==> #[trigger] call_requires(f, (i, y, x)),
                        filled_by(f, h as int, w as int, data@),
                    decreases w - x,
                {
                    proof {
                        lemma_cell(c as int, h as int, w as int, i as int, y as int, x as int);
                    }
                    let v = f(i, y, x);
                    data.push(v);
                    x += 1;
                }
                y += 1;
                assert((i * h + y) * w == (i * h + (y - 1)) * w + w) by (nonlinear_arith);
            }
            i += 1;
            assert(((i - 1) * h + h) * w == i * h * w) by (nonlinear_arith);
        }
        let r = Plane { c, h, w, data };
        assert forall|i: int, y: int, x: int|
            0 <= i < c && 0 <= y < h && 0 <= x < w implies call_ensures(
            f,
            (i as usize, y as usize, x as usize),
            #[trigger] r.px(i, y, x),
        ) by {
            lemma_cell(c as int, h as int, w as int, i, y, x);
            let k = cell(h as int, w as int, i, y, x);
            assert(call_ensures(
                f,
                (
                    ((k / w as int) / h as int) as usize,
                    ((k / w as int) % h as int) as usize,
                    (k % w as int) as usize,
                ),
                r.data@[k],
            ));
        }
        r
    }
}

/// Each value of `data` is what `f` gives at its coordinates.
pub open spec fn filled_by<T, F: Fn(usize, usize, usize) -> T>(
    f: F,
    h: int,
    w: int,
    data: Seq<T>,
) -> bool {
    forall|k: int|
        0 <= k < data.len() ==> call_ensures(
            f,
            (((k / w) / h) as usize, ((k / w) % h) as usize, (k % w) as usize),
            #[trigger] data[k],
        )
}

impl<T: Copy> Clone for Plane<T> {
    fn clone(&self) -> (r: Self)
        ensures
            r.c == self.c,
            r.h == self.h,
            r.w == self.w,
            r.data@ == self.data@,
    {
        let data = copied(self.data.as_slice(), 0, self.data.len());
        assert(data@ =~= self.data@);
        Plane { c: self.c, h: self.h, w: self.w, data }
    }
}

} // verus!
