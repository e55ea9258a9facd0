//! Images: PNG files, tiles, resampling and dumps.

use realesrgan::codec::Frame;
use realesrgan::dump::dump_bytes;
use realesrgan::dump::dump_path;
use realesrgan::dump::Bits;
use realesrgan::image::load_rgb_stream;
use realesrgan::image::pixels;
use realesrgan::image::save_rgb_stream;
use realesrgan::image::Image;
use realesrgan::image::ImageError;
use realesrgan::image::Samples;
use realesrgan::plane::Plane;
use realesrgan::resize::resize_lanczos;
use realesrgan::resize::Filter;
use realesrgan::tile::crop;
use realesrgan::tile::paste;
use realesrgan::tile::plan;
use realesrgan::tile::Tile;

struct Px;

impl Samples<f32> for Px {
    fn from_sample(&self, v: u16, full: u16) -> f32 {
        v as f32 * (1.0 / full as f32)
    }
    fn to_byte(&self, v: f32) -> u8 {
        (v.clamp(0.0, 1.0) * 255.0).round().min(255.0) as u8
    }
}

impl Bits<f32> for Px {
    fn bits(&self, v: f32) -> u32 {
        v.to_bits()
    }
}

impl Filter<f32, f64> for Px {
    fn window(&self, x: usize, n_in: usize, n_out: usize) -> (isize, isize) {
        let c = (x as f64 + 0.5) * n_in as f64 / n_out as f64 - 0.5;
        ((c - 4.0).ceil() as isize, (c + 4.0).floor() as isize)
    }
    fn weight(&self, x: usize, n_in: usize, n_out: usize, i: isize) -> f64 {
        let c = (x as f64 + 0.5) * n_in as f64 / n_out as f64 - 0.5;
        let d = c - i as f64;
        if d == 0.0 {
            return 1.0;
        }
        if d.abs() >= 4.0 {
            return 0.0;
        }
        let p = std::f64::consts::PI * d;
        (p.sin() / p) * ((p / 4.0).sin() / (p / 4.0))
    }
    fn nothing(&self) -> f64 {
        0.0
    }
    fn count(&self, norm: f64, k: f64) -> f64 {
        norm + k
    }
    fn blend(&self, acc: f64, k: f64, v: f32) -> f64 {
        acc + k * v as f64
    }
    fn quotient(&self, acc: f64, norm: f64) -> f32 {
        (acc / norm) as f32
    }
}

fn file(w: u32, h: u32, colour: png::ColorType, depth: png::BitDepth, data: &[u8]) -> Vec<u8> {
    let mut out = Vec::new();
    let mut enc = png::Encoder::new(&mut out, w, h);
    enc.set_color(colour);
    enc.set_depth(depth);
    if colour == png::ColorType::Indexed {
        enc.set_palette(vec![0u8, 0, 0, 255, 255, 255]);
    }
    let mut wr = enc.write_header().unwrap();
    wr.write_image_data(data).unwrap();
    wr.finish().unwrap();
    out
}

fn load(bytes: &[u8]) -> Image<f32> {
    match load_rgb_stream(&Px, bytes) {
        Ok(i) => i,
        Err(e) => panic!("{}", e.message()),
    }
}

fn failure(bytes: &[u8]) -> ImageError {
    match load_rgb_stream::<f32, Px>(&Px, bytes) {
        Ok(_) => panic!("loaded"),
        Err(e) => e,
    }
}

#[test]
fn saved_bytes_load_back() {
    let rgb: Vec<u8> = (0..5 * 3 * 3).map(|i| (i * 37 % 256) as u8).collect();
    let f = save_rgb_stream(5, 3, &rgb).unwrap();
    assert_ne!(f, rgb);
    let img = load(&f);
    assert_eq!((img.w, img.h, img.data.len()), (5, 3, 45));
    for px in 0..15 {
        for c in 0..3 {
            assert_eq!(img.data[c * 15 + px], rgb[px * 3 + c] as f32 * (1.0 / 255.0));
        }
    }
    assert_eq!(img.to_rgb8(&Px), rgb);
    assert_eq!(img.plane(1).len(), 15);
    assert_eq!(img.plane(2), &img.data[30..45]);
}

#[test]
fn every_byte_survives() {
    let rgb: Vec<u8> = (0..256 * 3).map(|i| (i / 3) as u8).collect();
    let f = save_rgb_stream(16, 16, &rgb).unwrap();
    assert_eq!(load(&f).to_rgb8(&Px), rgb);
    assert_eq!(Px.to_byte(f32::from_bits(0x3B00_8080)), 0);
}

#[test]
fn empty_images_are_not_saved() {
    assert_eq!(save_rgb_stream(0, 3, &[]).unwrap_err(), "Zero width not allowed");
    assert_eq!(save_rgb_stream(3, 0, &[]).unwrap_err(), "Zero height not allowed");
}

#[test]
fn gray_serves_all_channels_and_alpha_is_dropped() {
    let img = load(&file(2, 1, png::ColorType::Grayscale, png::BitDepth::Eight, &[51, 255]));
    assert_eq!(img.to_rgb8(&Px), vec![51, 51, 51, 255, 255, 255]);
    let img =
        load(&file(2, 1, png::ColorType::GrayscaleAlpha, png::BitDepth::Eight, &[51, 1, 102, 2]));
    assert_eq!(img.to_rgb8(&Px), vec![51, 51, 51, 102, 102, 102]);
    let img = load(&file(1, 1, png::ColorType::Rgba, png::BitDepth::Eight, &[1, 2, 3, 4]));
    assert_eq!(img.to_rgb8(&Px), vec![1, 2, 3]);
}

#[test]
fn sixteen_bits_are_read_high_byte_first() {
    let img =
        load(&file(1, 1, png::ColorType::Rgb, png::BitDepth::Sixteen, &[0x12, 0x34, 0, 1, 255, 255]));
    assert_eq!(img.data[0], 0x1234 as f32 * (1.0 / 65535.0));
    assert_eq!(img.data[1], 1.0 * (1.0 / 65535.0));
    assert_eq!(img.data[2], 65535.0 * (1.0 / 65535.0));
    let img = load(&file(1, 1, png::ColorType::Grayscale, png::BitDepth::Sixteen, &[0x80, 0]));
    assert_eq!(img.data, vec![0x8000 as f32 * (1.0 / 65535.0); 3]);
}

#[test]
fn files_that_cannot_be_used_are_told() {
    let e = failure(&file(2, 1, png::ColorType::Indexed, png::BitDepth::Eight, &[0, 1]));
    assert_eq!(e.message(), "unsupported png colour type Indexed");
    let e = failure(&file(8, 1, png::ColorType::Grayscale, png::BitDepth::One, &[0xAA]));
    assert_eq!(e.message(), "unsupported png bit depth One");
    let e = failure(&file(4, 1, png::ColorType::Grayscale, png::BitDepth::Two, &[0xAA]));
    assert_eq!(e.message(), "unsupported png bit depth Two");
    let e = failure(&file(2, 1, png::ColorType::Grayscale, png::BitDepth::Four, &[0xAA]));
    assert_eq!(e.message(), "unsupported png bit depth Four");
    // The colours are looked at before the depth.
    let e = failure(&file(8, 1, png::ColorType::Indexed, png::BitDepth::One, &[0xAA]));
    assert_eq!(e.message(), "unsupported png colour type Indexed");
    assert!(matches!(failure(b"not a png"), ImageError::Decode(_)));
    assert!(matches!(failure(&[]), ImageError::Decode(_)));
    assert_eq!(ImageError::TooLarge.message(), "image too large");
}

#[test]
fn frames_become_planar() {
    let f = Frame { width: 2, height: 2, colour: 2, depth: 8, bytes: (0..12).collect() };
    let img: Image<f32> = pixels(&Px, &f).ok().unwrap();
    let got: Vec<u8> = img.data.iter().map(|v| Px.to_byte(*v)).collect();
    assert_eq!(got, vec![0, 3, 6, 9, 1, 4, 7, 10, 2, 5, 8, 11]);
}

#[test]
fn bytes_are_clamped_and_rounded() {
    let mut img: Image<f32> = Image::new(2, 1, 0.0);
    assert_eq!(img.data.len(), 6);
    img.data = vec![-1.0, 2.0, 0.5, 1.0, 0.001, 0.002];
    assert_eq!(img.to_rgb8(&Px), vec![0, 128, 0, 255, 255, 1]);
}

fn numbered(w: usize, h: usize) -> Image<f32> {
    Image { w, h, data: (0..3 * w * h).map(|i| i as f32).collect() }
}

#[test]
fn small_images_are_run_in_one_pass() {
    assert!(plan(30, 20, 0, 10).is_none());
    assert!(plan(30, 20, 30, 10).is_none());
    assert!(plan(30, 20, 100, 10).is_none());
    assert!(plan(30, 20, 20, 10).is_some());
}

#[test]
fn tiles_own_every_pixel_once() {
    for (w, h, tile, pad) in
        [(35usize, 20usize, 10usize, 2usize), (30, 30, 10, 64), (7, 3, 2, 0), (5, 9, 3, 1)]
    {
        let tiles = plan(w, h, tile, pad).unwrap();
        let mut owners = vec![0; w * h];
        for t in &tiles {
            assert!(t.x0p <= t.x0 && t.x0 < t.x1 && t.x1 <= t.x1p && t.x1p <= w);
            assert!(t.y0p <= t.y0 && t.y0 < t.y1 && t.y1 <= t.y1p && t.y1p <= h);
            assert_eq!(t.x0 - t.x0p, pad.min(t.x0));
            assert_eq!(t.x1p - t.x1, pad.min(w - t.x1));
            assert_eq!(t.y0 - t.y0p, pad.min(t.y0));
            assert_eq!(t.y1p - t.y1, pad.min(h - t.y1));
            for y in t.y0..t.y1 {
                for x in t.x0..t.x1 {
                    owners[y * w + x] += 1;
                }
            }
        }
        assert!(owners.iter().all(|n| *n == 1));
    }
    let tiles = plan(35, 20, 10, 2).unwrap();
    assert_eq!(tiles.len(), 8);
    assert_eq!(
        tiles[5],
        Tile { x0: 10, x1: 20, y0: 10, y1: 20, x0p: 8, x1p: 22, y0p: 8, y1p: 20 }
    );
}

#[test]
fn tiled_result_of_a_local_network_is_the_whole_one() {
    // A network that enlarges every pixel by itself needs no context.
    let scale = 2;
    let img = numbered(7, 5);
    let enlarge = |p: &Plane<f32>| {
        let mut v = Vec::new();
        for c in 0..3 {
            for y in 0..p.h * scale {
                for x in 0..p.w * scale {
                    v.push(p.data[(c * p.h + y / scale) * p.w + x / scale] + (x % 2) as f32 * 0.25);
                }
            }
        }
        v
    };
    let whole = enlarge(&Plane { c: 3, h: 5, w: 7, data: img.data.clone() });
    for (tile, pad) in [(2usize, 1usize), (3, 0), (4, 9)] {
        let mut out: Plane<f32> = Plane::new(3, 10, 14, -1.0);
        for t in plan(7, 5, tile, pad).unwrap() {
            let c = crop(&img, &t);
            assert_eq!((c.c, c.h, c.w), (3, t.y1p - t.y0p, t.x1p - t.x0p));
            assert_eq!(c.data[0], img.data[t.y0p * 7 + t.x0p]);
            paste(&mut out, &enlarge(&c), &t, scale);
        }
        assert_eq!(out.data, whole);
    }
}

#[test]
fn paste_leaves_the_rest_alone() {
    let t = Tile { x0: 1, x1: 2, y0: 1, y1: 2, x0p: 0, x1p: 3, y0p: 0, y1p: 3 };
    let mut out: Plane<f32> = Plane::new(3, 3, 3, 0.0);
    let up: Vec<f32> = (1..=27).map(|i| i as f32).collect();
    paste(&mut out, &up, &t, 1);
    for c in 0..3 {
        for i in 0..9 {
            let want = if i == 4 { (c * 9 + 5) as f32 } else { 0.0 };
            assert_eq!(out.data[c * 9 + i], want);
        }
    }
}

#[test]
fn resampling_keeps_a_constant_and_its_own_size() {
    let img = Image { w: 6, h: 5, data: vec![0.25f32; 90] };
    let r = resize_lanczos(&Px, &img, 9, 4);
    assert_eq!((r.w, r.h, r.data.len()), (9, 4, 108));
    for v in &r.data {
        assert!((v - 0.25).abs() < 1e-6);
    }
    let img = numbered(6, 5);
    let r = resize_lanczos(&Px, &img, 6, 5);
    for (a, b) in r.data.iter().zip(img.data.iter()) {
        assert!((a - b).abs() < 1e-3);
    }
    let r = resize_lanczos(&Px, &img, 0, 5);
    assert_eq!((r.w, r.h, r.data.len()), (0, 5, 0));
}

#[test]
fn resampling_matches_the_plain_one() {
    let img = numbered(5, 4);
    let (w, h) = (7usize, 3usize);
    let one = |line: &[f32], x: usize, n_out: usize| -> f32 {
        let n = line.len();
        let (lo, hi) = Px.window(x, n, n_out);
        let (mut acc, mut norm) = (0.0f64, 0.0f64);
        for i in lo..=hi {
            let k = Px.weight(x, n, n_out, i);
            norm += k;
            acc += k * line[i.clamp(0, n as isize - 1) as usize] as f64;
        }
        (acc / norm) as f32
    };
    let mut mid = Vec::new();
    for c in 0..3 {
        for y in 0..4 {
            let row = &img.data[(c * 4 + y) * 5..(c * 4 + y) * 5 + 5];
            for x in 0..w {
                mid.push(one(row, x, w));
            }
        }
    }
    let mut want = Vec::new();
    for c in 0..3 {
        for y in 0..h {
            for x in 0..w {
                let col: Vec<f32> = (0..4).map(|i| mid[(c * 4 + i) * w + x]).collect();
                want.push(one(&col, y, h));
            }
        }
    }
    assert_eq!(resize_lanczos(&Px, &img, w, h).data, want);
}

#[test]
fn dumps_have_a_header_and_little_endian_values() {
    let p = Plane { c: 1, h: 2, w: 258, data: vec![1.0f32, -2.5] };
    let b = dump_bytes(&Px, &p);
    let mut want = Vec::new();
    for n in [1i32, 2, 258] {
        want.extend_from_slice(&n.to_le_bytes());
    }
    want.extend_from_slice(&1.0f32.to_le_bytes());
    want.extend_from_slice(&(-2.5f32).to_le_bytes());
    assert_eq!(b, want);
    assert_eq!(dump_path("/tmp/d", "01_conv_first"), "/tmp/d/01_conv_first.f32");
}
