//! Images: planar RGB, decoded from PNG and encoded to it.

use vstd::prelude::*;
use vstd::slice::slice_subrange;

use crate::codec::encodable;
use crate::codec::file_of;
use crate::codec::framed;
use crate::codec::png_decode;
use crate::codec::png_decoded;
use crate::codec::png_encode_rgb8;
use crate::codec::png_encoded;
use crate::codec::reads_back;
use crate::codec::samples;
use crate::codec::Frame;
use crate::codec::GRAYSCALE;
use crate::codec::GRAYSCALE_ALPHA;
use crate::codec::INDEXED;
use crate::codec::RGB;
use crate::codec::RGBA;
use crate::grid::cell;
use crate::grid::lemma_quot_rem;
use crate::plane::append_range;
use crate::plane::filled;

verus! {

/// A planar RGB image: `data` is `[3][h][w]`.
pub struct Image<T> {
    pub w: usize,
    pub h: usize,
    pub data: Vec<T>,
}

/// The conversions between pixel values and integer samples.
pub trait Samples<T> {
    /// The value of sample `v` where `full` is the largest sample: `v / full`.
    fn from_sample(&self, v: u16, full: u16) -> T;

    /// The byte of a value: clamped to `[0, 1]`, scaled to 255 and rounded.
    fn to_byte(&self, v: T) -> u8;
}

/// `r` is the value of sample `v` of `full`.
pub open spec fn from_sample_is<T, S: Samples<T>>(ops: &S, v: u16, full: u16, r: T) -> bool {
    call_ensures(<S as Samples<T>>::from_sample, (ops, v, full), r)
}

/// `r` is the byte of value `v`.
pub open spec fn to_byte_is<T, S: Samples<T>>(ops: &S, v: T, r: u8) -> bool {
    call_ensures(<S as Samples<T>>::to_byte, (ops, v), r)
}

impl<T> Image<T> {
    /// The data fill the shape.
    pub open spec fn wf(&self) -> bool {
        self.data@.len() == 3 * self.w * self.h
    }

    /// The value in channel `c`, row `y`, column `x`.
    pub open spec fn px(&self, c: int, y: int, x: int) -> T {
        self.data@[cell(self.h as int, self.w as int, c, y, x)]
    }
}

/// `out` is the image as interleaved RGB bytes.
pub open spec fn bytes_of<T, S: Samples<T>>(ops: &S, img: Image<T>, out: Seq<u8>) -> bool {
    &&& out.len() == img.w * img.h * 3
    &&& forall|i: int, c: int|
        0 <= i < img.w * img.h && 0 <= c < 3 ==> to_byte_is(
            ops,
            img.data@[c * (img.w * img.h) + i],
            #[trigger] out[i * 3 + c],
        )
}

impl<T: Copy> Image<T> {
    /// An image with every value `fill`.
    pub fn new(w: usize, h: usize, fill: T) -> (r: Image<T>)
        requires
            3 * w <= usize::MAX,
            3 * w * h <= usize::MAX,
        ensures
            r.wf(),
            r.w == w,
            r.h == h,
            r.data@ == Seq::new((3 * w * h) as nat, |i: int| fill),
    {
        Image { w, h, data: filled(3 * w * h, fill) }
    }

    /// One channel.
    pub fn plane(&self, c: usize) -> (r: &[T])
        requires
            self.wf(),
            c < 3,
        ensures
            r@ == self.data@.subrange(c * (self.w * self.h), (c + 1) * (self.w * self.h)),
            r@.len() == self.w * self.h,
    {
        proof {
            lemma_channel(self.w as int, self.h as int, c as int);
            assert(self.data.len() == self.data@.len());
        }
        let hw = self.w * self.h;
        slice_subrange(self.data.as_slice(), c * hw, (c + 1) * hw)
    }

    /// The image as interleaved RGB bytes.
    pub fn to_rgb8<S: Samples<T>>(&self, ops: &S) -> (out: Vec<u8>)
        requires
            self.wf(),
        ensures
            bytes_of(ops, *self, out@),
    {
        proof {
            lemma_channel(self.w as int, self.h as int, 0);
            assert(self.data.len() == self.data@.len());
        }
        let hw = self.w * self.h;
        let mut out: Vec<u8> = Vec::with_capacity(hw * 3);
        let mut i: usize = 0;
        while i < hw
            invariant
                hw == self.w * self.h,
                self.data@.len() == 3 * hw,
                3 * hw <= usize::MAX,
                i <= hw,
                out@.len() == i * 3,
                forall|j: int|
                    0 <= j < out@.len() ==> to_byte_is(
                        ops,
                        self.data@[(j % 3) * hw + j / 3],
                        #[trigger] out@[j],
                    ),
            decreases hw - i,
        {
            let mut c: usize = 0;
            while c < 3
                invariant
                    hw == self.w * self.h,
                    self.data@.len() == 3 * hw,
                    3 * hw <= usize::MAX,
                    i < hw,
                    c <= 3,
                    out@.len() == i * 3 + c,
                    forall|j: int|
                        0 <= j < out@.len() ==> to_byte_is(
                            ops,
                            self.data@[(j % 3) * hw + j / 3],
                            #[trigger] out@[j],
                        ),
                decreases 3 - c,
            {
                assert(0 <= c * hw <= 2 * hw) by (nonlinear_arith)
                    requires
                        0 <= c <= 2,
                        0 <= hw,
                ;
                let v = ops.to_byte(self.data[c * hw + i]);
                assert(to_byte_is(ops, self.data@[c * hw + i], v));
                out.push(v);
                c += 1;
            }
            i += 1;
        }
        assert forall|i: int, c: int| 0 <= i < hw && 0 <= c < 3 implies to_byte_is(
            ops,
            self.data@[c * hw + i],
            #[trigger] out@[i * 3 + c],
        ) by {
            lemma_quot_rem(i, 3, c);
        }
        out
    }
}

/// Channel `c` lies inside the data.
pub proof fn lemma_channel(w: int, h: int, c: int)
    requires
        0 <= w,
        0 <= h,
        0 <= c < 3,
    ensures
        0 <= w * h,
        3 * w * h == 3 * (w * h),
        0 <= c * (w * h) <= (c + 1) * (w * h) <= 3 * (w * h),
        (c + 1) * (w * h) == c * (w * h) + w * h,
        h * w == w * h,
{
    assert(0 <= w * h && 3 * w * h == 3 * (w * h) && h * w == w * h) by (nonlinear_arith)
        requires
            0 <= w,
            0 <= h,
    ;
    let n = w * h;
    assert(0 <= c * n <= (c + 1) * n <= 3 * n && (c + 1) * n == c * n + n) by (nonlinear_arith)
        requires
            0 <= n,
            0 <= c < 3,
    ;
}

/// Why a file is not an image that can be used.
pub enum ImageError {
    /// The file cannot be decoded: the decoder's own text.
    Decode(String),
    /// The image is a palette image.
    Indexed,
    /// Its samples have this many bits: less than a byte.
    Depth(u8),
    /// Its values cannot be counted.
    TooLarge,
}

/// What an [`ImageError`] says.
pub enum ImageFault {
    Decode(Seq<char>),
    Indexed,
    Depth(u8),
    TooLarge,
}

impl View for ImageError {
    type V = ImageFault;

    open spec fn view(&self) -> ImageFault {
        match self {
            ImageError::Decode(t) => ImageFault::Decode(t@),
            ImageError::Indexed => ImageFault::Indexed,
            ImageError::Depth(d) => ImageFault::Depth(*d),
            ImageError::TooLarge => ImageFault::TooLarge,
        }
    }
}

impl ImageFault {
    /// The message of the fault.
    pub open spec fn text(self) -> Seq<char> {
        match self {
            ImageFault::Decode(t) => t,
            ImageFault::Indexed => "unsupported png colour type Indexed"@,
            ImageFault::Depth(d) => if d == 1 {
                "unsupported png bit depth One"@
            } else if d == 2 {
                "unsupported png bit depth Two"@
            } else {
                "unsupported png bit depth Four"@
            },
            ImageFault::TooLarge => "image too large"@,
        }
    }
}

impl ImageError {
    /// The message of the error.
    pub fn message(&self) -> (r: String)
        ensures
            r@ == self@.text(),
    {
        match self {
            ImageError::Decode(t) => t.clone(),
            ImageError::Indexed => "unsupported png colour type Indexed".to_owned(),
            ImageError::Depth(d) => {
                let text = match *d {
                    1 => "unsupported png bit depth One",
                    2 => "unsupported png bit depth Two",
                    _ => "unsupported png bit depth Four",
                };
                text.to_owned()
            },
            ImageError::TooLarge => "image too large".to_owned(),
        }
    }
}

/// What keeps a frame from being used, if anything: its colours are looked at
/// before its bit depth.
pub open spec fn frame_fault(f: (u32, u32, u8, u8, Seq<u8>)) -> Option<ImageFault> {
    let (width, height, colour, depth, bytes) = f;
    if colour == INDEXED {
        Some(ImageFault::Indexed)
    } else if depth != 8 && depth != 16 {
        Some(ImageFault::Depth(depth))
    } else {
        None
    }
}

/// Sample `c` of pixel `px` of a frame. Two bytes of a sample stand with the high
/// one first.
pub open spec fn sample(f: (u32, u32, u8, u8, Seq<u8>), px: int, c: int) -> int {
    let (width, height, colour, depth, bytes) = f;
    let i = px * samples(colour) + c;
    if depth == 16 {
        bytes[2 * i] * 256 + bytes[2 * i + 1]
    } else {
        bytes[i] as int
    }
}

/// The largest sample of a frame.
pub open spec fn full_sample(f: (u32, u32, u8, u8, Seq<u8>)) -> u16 {
    if f.3 == 16 {
        65535
    } else {
        255
    }
}

/// The sample that channel `c` of the image takes: gray serves all three, and
/// alpha is dropped.
pub open spec fn source_channel(colour: u8, c: int) -> int {
    if samples(colour) <= 2 {
        0
    } else {
        c
    }
}

/// `img` is the image of a frame.
pub open spec fn pixels_of<T, S: Samples<T>>(
    ops: &S,
    f: (u32, u32, u8, u8, Seq<u8>),
    img: Image<T>,
) -> bool {
    &&& img.w == f.0
    &&& img.h == f.1
    &&& img.wf()
    &&& forall|c: int, px: int|
        0 <= c < 3 && 0 <= px < img.w * img.h ==> from_sample_is(
            ops,
            sample(f, px, source_channel(f.2, c)) as u16,
            full_sample(f),
            #[trigger] img.data@[c * (img.w * img.h) + px],
        )
}

/// One sample of a frame.
fn sample_at(f: &Frame, n: usize, px: usize, c: usize) -> (r: u16)
    requires
        framed(f@),
        f.depth == 8 || f.depth == 16,
        n == samples(f.colour),
        px < f.width * f.height,
        c < n,
    ensures
        r == sample(f@, px as int, c as int),
{
    proof {
        let (total, px, c, n) = (f.width * f.height, px as int, c as int, n as int);
        assert(0 <= px * n + c < total * n) by (nonlinear_arith)
            requires
                0 <= px < total,
                0 <= c < n,
        ;
        assert(f.bytes.len() == f.bytes@.len());
    }
    let i = px * n + c;
    if f.depth == 16 {
        (f.bytes[2 * i] as u16) * 256 + f.bytes[2 * i + 1] as u16
    } else {
        f.bytes[i] as u16
    }
}

/// The image of a frame: planar, with values from zero to one.
pub fn pixels<T: Copy, S: Samples<T>>(ops: &S, f: &Frame) -> (r: Result<Image<T>, ImageError>)
    requires
        framed(f@),
        frame_fault(f@) is None ==> 3 * f.width * f.height <= usize::MAX,
    ensures
        match frame_fault(f@) {
            Some(e) => r matches Err(v) && v@ == e,
            None => r matches Ok(img) && pixels_of(ops, f@, img),
        },
{
    let n: usize = if f.colour == GRAYSCALE {
        1
    } else if f.colour == GRAYSCALE_ALPHA {
        2
    } else if f.colour == RGB {
        3
    } else if f.colour == RGBA {
        4
    } else {
        return Err(ImageError::Indexed);
    };
    let full: u16 = if f.depth == 8 {
        255
    } else if f.depth == 16 {
        65535
    } else {
        return Err(ImageError::Depth(f.depth));
    };
    let (w, h) = (f.width as usize, f.height as usize);
    proof {
        lemma_channel(w as int, h as int, 0);
    }
    let hw = w * h;
    let mut red: Vec<T> = Vec::new();
    let mut green: Vec<T> = Vec::new();
    let mut blue: Vec<T> = Vec::new();
    let mut px: usize = 0;
    while px < hw
        invariant
            framed(f@),
            f.depth == 8 || f.depth == 16,
            n == samples(f.colour),
            full == full_sample(f@),
            w == f.width,
            h == f.height,
            hw == w * h,
            px <= hw,
            red@.len() == px,
            green@.len() == px,
            blue@.len() == px,
            forall|i: int|
                0 <= i < px ==> from_sample_is(
                    ops,
                    sample(f@, i, source_channel(f.colour, 0)) as u16,
                    full,
                    #[trigger] red@[i],
                ),
            forall|i: int|
                0 <= i < px ==> from_sample_is(
                    ops,
                    sample(f@, i, source_channel(f.colour, 1)) as u16,
                    full,
                    #[trigger] green@[i],
                ),
            forall|i: int|
                0 <= i < px ==> from_sample_is(
                    ops,
                    sample(f@, i, source_channel(f.colour, 2)) as u16,
                    full,
                    #[trigger] blue@[i],
                ),
        decreases hw - px,
    {
        if n <= 2 {
            let v = ops.from_sample(sample_at(f, n, px, 0), full);
            assert(from_sample_is(ops, sample(f@, px as int, 0) as u16, full, v));
            red.push(v);
            green.push(v);
            blue.push(v);
        } else {
            let r = ops.from_sample(sample_at(f, n, px, 0), full);
            let g = ops.from_sample(sample_at(f, n, px, 1), full);
            let b = ops.from_sample(sample_at(f, n, px, 2), full);
            assert(from_sample_is(ops, sample(f@, px as int, 0) as u16, full, r));
            assert(from_sample_is(ops, sample(f@, px as int, 1) as u16, full, g));
            assert(from_sample_is(ops, sample(f@, px as int, 2) as u16, full, b));
            red.push(r);
            green.push(g);
            blue.push(b);
        }
        px += 1;
    }
    let mut data = red;
    let ghost first = data@;
    append_range(&mut data, green.as_slice(), 0, hw);
    append_range(&mut data, blue.as_slice(), 0, hw);
    assert(data@ =~= first + green@ + blue@);
    let img = Image { w, h, data };
    proof {
        assert forall|c: int, px: int| 0 <= c < 3 && 0 <= px < hw implies from_sample_is(
            ops,
            sample(f@, px, source_channel(f.colour, c)) as u16,
            full,
            #[trigger] img.data@[c * hw + px],
        ) by {
            lemma_channel(w as int, h as int, c);
            if c == 0 {
                assert(img.data@[c * hw + px] == first[px]);
            } else if c == 1 {
                assert(img.data@[c * hw + px] == green@[px]);
            } else {
                assert(c * hw == 2 * hw) by (nonlinear_arith)
                    requires
                        c == 2,
                ;
                assert(img.data@[c * hw + px] == blue@[px]);
            }
        }
    }
    Ok(img)
}

/// `r` is what loading a file gives, where the decoder gives `d` for it.
pub open spec fn loaded<T, S: Samples<T>>(
    ops: &S,
    d: Result<(u32, u32, u8, u8, Seq<u8>), Seq<char>>,
    r: Result<Image<T>, ImageError>,
) -> bool {
    match d {
        Err(t) => r matches Err(e) && e@ == ImageFault::Decode(t),
        Ok(f) => match frame_fault(f) {
            Some(fault) => r matches Err(e) && e@ == fault,
            None => if 3 * f.0 * f.1 > usize::MAX {
                r matches Err(e) && e@ == ImageFault::TooLarge
            } else {
                r matches Ok(img) && pixels_of(ops, f, img)
            },
        },
    }
}

/// Decodes a PNG file (8 or 16 bits, gray or RGB, with or without alpha) into a
/// planar RGB image.
pub fn load_rgb_stream<T: Copy, S: Samples<T>>(ops: &S, src: &[u8]) -> (r: Result<
    Image<T>,
    ImageError,
>)
    ensures
        loaded(ops, png_decoded(src@, usize::BITS as int), r),
{
    match png_decode(src) {
        Err(t) => Err(ImageError::Decode(t)),
        Ok(f) => {
            proof {
                let (w, h) = (f.width as int, f.height as int);
                assert(0 <= 3 * w * h <= 3 * 0x1_0000_0000 * 0x1_0000_0000) by (nonlinear_arith)
                    requires
                        0 <= w < 0x1_0000_0000,
                        0 <= h < 0x1_0000_0000,
                ;
            }
            let count: u128 = 3 * (f.width as u128) * (f.height as u128);
            let usable = f.colour != INDEXED && (f.depth == 8 || f.depth == 16);
            if usable && count > usize::MAX as u128 {
                Err(ImageError::TooLarge)
            } else {
                pixels(ops, &f)
            }
        },
    }
}

/// Encodes interleaved RGB bytes as an 8-bit PNG file. (A slice never has the
/// largest `usize` of bytes: it ends within half the addresses.)
pub fn save_rgb_stream(w: usize, h: usize, rgb: &[u8]) -> (r: Result<Vec<u8>, String>)
    requires
        rgb@.len() == w * h * 3,
        rgb@.len() < usize::MAX,
    ensures
        file_of(r) == png_encoded(w as u32, h as u32, rgb@),
        r is Ok <==> encodable(w as u32, h as u32, rgb@),
        r matches Ok(file) ==> reads_back(file@, w as u32, h as u32, rgb@),
{
    let (w32, h32) = (w as u32, h as u32);
    proof {
        assert(w32 <= w && h32 <= h) by {
            lemma_truncated(w);
            lemma_truncated(h);
        }
        assert(w32 * h32 * 3 <= w * h * 3) by (nonlinear_arith)
            requires
                0 <= w32 <= w,
                0 <= h32 <= h,
        ;
    }
    png_encode_rgb8(w32, h32, rgb)
}

/// Truncation makes a number no larger.
proof fn lemma_truncated(n: usize)
    ensures
        n as u32 <= n,
{
    assert(n as u32 <= n) by (bit_vector);
}

/// A saved image loads back: where saving gave `file` and a line is within the
/// decoder's limit, loading it gives an image of the same size whose values are
/// the saved bytes.
pub proof fn saved_image_loads_back<T, S: Samples<T>>(
    ops: &S,
    w: usize,
    h: usize,
    rgb: Seq<u8>,
    file: Seq<u8>,
    r: Result<Image<T>, ImageError>,
)
    requires
        0 < w <= u32::MAX,
        0 < h <= u32::MAX,
        rgb.len() == w * h * 3,
        rgb.len() <= usize::MAX,
        w * 3 <= 0x4000000,
        reads_back(file, w as u32, h as u32, rgb),
        loaded(ops, png_decoded(file, usize::BITS as int), r),
    ensures
        r matches Ok(img) && img.w == w && img.h == h && img.wf() && forall|c: int, px: int|
            0 <= c < 3 && 0 <= px < w * h ==> from_sample_is(
                ops,
                rgb[px * 3 + c] as u16,
                255,
                #[trigger] img.data@[c * (w * h) + px],
            ),
{
    let f = (w as u32, h as u32, RGB, 8u8, rgb);
    lemma_channel(w as int, h as int, 0);
    assert(frame_fault(f) is None);
    assert(3 * f.0 * f.1 <= usize::MAX);
    let img = r->Ok_0;
    assert(pixels_of(ops, f, img));
    assert forall|c: int, px: int| 0 <= c < 3 && 0 <= px < w * h implies from_sample_is(
        ops,
        rgb[px * 3 + c] as u16,
        255,
        #[trigger] img.data@[c * (w * h) + px],
    ) by {
        assert(source_channel(f.2, c) == c);
        assert(sample(f, px, c) == rgb[px * 3 + c]);
    }
}

/// `to_byte` gives back the byte that `from_sample` made a value of.
pub open spec fn bytes_survive<T, S: Samples<T>>(ops: &S) -> bool {
    forall|b: u8, v: T, r: u8|
        #[trigger] from_sample_is(ops, b as u16, 255, v) && #[trigger] to_byte_is(ops, v, r) ==> r
            == b
}

/// An 8-bit RGB image survives: where a value's byte is the byte it was made of,
/// what was saved, loaded and turned into bytes again is what was saved.
pub proof fn saved_bytes_survive<T, S: Samples<T>>(
    ops: &S,
    w: usize,
    h: usize,
    rgb: Seq<u8>,
    file: Seq<u8>,
    img: Image<T>,
    out: Seq<u8>,
)
    requires
        0 < w <= u32::MAX,
        0 < h <= u32::MAX,
        rgb.len() == w * h * 3,
        rgb.len() <= usize::MAX,
        w * 3 <= 0x4000000,
        bytes_survive(ops),
        reads_back(file, w as u32, h as u32, rgb),
        loaded(ops, png_decoded(file, usize::BITS as int), Ok(img)),
        bytes_of(ops, img, out),
    ensures
        img.w == w,
        img.h == h,
        out == rgb,
{
    saved_image_loads_back(ops, w, h, rgb, file, Ok(img));
    assert forall|i: int| 0 <= i < rgb.len() implies #[trigger] out[i] == rgb[i] by {
        let (px, c) = (i / 3, i % 3);
        assert(0 <= px < w * h);
        let v = img.data@[c * (w * h) + px];
        assert(from_sample_is(ops, rgb[px * 3 + c] as u16, 255, v));
        assert(to_byte_is(ops, v, out[px * 3 + c]));
    }
    assert(out =~= rgb);
}

} // verus!
