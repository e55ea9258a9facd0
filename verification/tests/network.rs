//! The convolution and the forward pass, against a plain reference.

use realesrgan::arith::leaky_relu;
use realesrgan::arith::residual;
use realesrgan::arith::Arith;
use realesrgan::conv::Conv;
use realesrgan::conv3x3::band_count;
use realesrgan::conv3x3::band_tasks;
use realesrgan::conv3x3::conv3x3_prefix_pub;
use realesrgan::conv3x3::oc_group;
use realesrgan::conv3x3::y_iter;
use realesrgan::conv3x3::ConvCall;
use realesrgan::forward::can_hold;
use realesrgan::forward::conv_to;
use realesrgan::forward::forward_cpu;
use realesrgan::forward::Pass;
use realesrgan::forward::Phase;
use realesrgan::forward::Stage;
use realesrgan::model::DenseBlock;
use realesrgan::model::Geometry;
use realesrgan::model::Model;
use realesrgan::model::Rrdb;
use realesrgan::plane::Plane;
use realesrgan::profile::profile_rows;
use realesrgan::profile::profile_total;
use realesrgan::profile::ConvKey;
use realesrgan::profile::ConvTiming;
use realesrgan::profile::HostRun;
use realesrgan::shuffle::pixel_unshuffle2;
use realesrgan::shuffle::upsample2x_nearest;

struct Fp;

impl Arith<f32> for Fp {
    fn zero(&self) -> f32 {
        0.0
    }
    fn fifth(&self) -> f32 {
        0.2
    }
    fn plus(&self, a: f32, b: f32) -> f32 {
        a + b
    }
    fn times(&self, a: f32, b: f32) -> f32 {
        a * b
    }
    fn mul_acc(&self, w: f32, x: f32, acc: f32) -> f32 {
        w.mul_add(x, acc)
    }
    fn at_least_zero(&self, v: f32) -> bool {
        v >= 0.0
    }
}

fn noise(n: usize, seed: u32) -> Vec<f32> {
    let mut s = seed.wrapping_mul(2654435761).wrapping_add(1);
    let mut v = Vec::new();
    for _ in 0..n {
        s = s.wrapping_mul(1664525).wrapping_add(1013904223);
        v.push((s >> 8) as f32 / 16777216.0 - 0.5);
    }
    v
}

fn lrelu(v: f32) -> f32 {
    if v >= 0.0 {
        v
    } else {
        0.2 * v
    }
}

/// One pixel at a time, in (ky, kx, ci) order.
fn plain_conv(
    src: &[f32],
    c_in: usize,
    w: &[f32],
    bias: &[f32],
    h: usize,
    wd: usize,
    act: bool,
    res: Option<(&[f32], f32)>,
) -> Vec<f32> {
    let c_out = bias.len();
    let mut out = vec![0f32; c_out * h * wd];
    for oc in 0..c_out {
        for y in 0..h {
            for x in 0..wd {
                let mut acc = bias[oc];
                for ky in 0..3 {
                    for kx in 0..3 {
                        let (iy, ix) = (y as i64 + ky as i64 - 1, x as i64 + kx as i64 - 1);
                        if iy < 0 || ix < 0 || iy >= h as i64 || ix >= wd as i64 {
                            continue;
                        }
                        for ci in 0..c_in {
                            let wt = w[(oc * c_in + ci) * 9 + ky * 3 + kx];
                            let v = src[(ci * h + iy as usize) * wd + ix as usize];
                            acc = wt.mul_add(v, acc);
                        }
                    }
                }
                let mut v = if act { lrelu(acc) } else { acc };
                let i = (oc * h + y) * wd + x;
                if let Some((r, s)) = res {
                    v += s * r[i];
                }
                out[i] = v;
            }
        }
    }
    out
}

fn conv_of(c_in: usize, c_out: usize, seed: u32) -> Conv<f32> {
    let w = noise(c_out * c_in * 9, seed);
    let b = noise(c_out, seed + 1);
    Conv::from_parts(&w, &b, c_in, c_out)
}

fn check_conv(c_in: usize, c_out: usize, h: usize, w: usize, act: bool, oc: Option<usize>) {
    let conv = conv_of(c_in, c_out, (c_in * 31 + c_out) as u32);
    let src = noise(c_in * h * w, 5);
    let mut dst = vec![7f32; c_out * h * w + 3];
    let mut run = HostRun::new(oc, true);
    conv3x3_prefix_pub(&Fp, &src, c_in, &mut dst, &conv, h, w, act, None, &mut run);
    let want = plain_conv(&src, c_in, &conv.w, &conv.bias, h, w, act, None);
    assert_eq!(&dst[..c_out * h * w], &want[..]);
    assert_eq!(&dst[c_out * h * w..], &[7f32; 3][..]);
    assert_eq!(run.timings.len(), 1);
    assert_eq!(run.timings[0].key, ConvKey { c_in, c_out, h, w, act });
}

#[test]
fn convolution_matches_the_plain_one() {
    check_conv(3, 8, 5, 7, false, None);
    check_conv(1, 1, 1, 1, true, None);
    check_conv(2, 4, 8, 100, true, None);
    check_conv(4, 5, 16, 64, true, Some(1));
    check_conv(4, 5, 16, 65, false, Some(2));
    check_conv(4, 7, 29, 37, true, Some(3));
    check_conv(3, 2, 2, 200, true, Some(9));
}

#[test]
fn convolution_blocking_makes_no_difference() {
    let conv = conv_of(4, 7, 77);
    let src = noise(4 * 16 * 100, 6);
    let call = ConvCall { src: &src, c_in: 4, conv: &conv, h: 16, w: 100, act: true, res: None };
    let one = call.values(&Fp, 1, 1);
    for threads in [1usize, 3, 24] {
        for group in [1usize, 2, 3] {
            assert_eq!(call.values(&Fp, threads, group), one);
        }
    }
}

#[test]
fn convolution_reads_a_prefix_and_adds_a_residual() {
    let conv = conv_of(2, 3, 9);
    let src = noise(5 * 6 * 40, 11);
    let res = noise(3 * 6 * 40, 12);
    let mut dst = vec![0f32; 3 * 6 * 40];
    let mut run = HostRun::new(None, false);
    conv3x3_prefix_pub(&Fp, &src, 2, &mut dst, &conv, 6, 40, true, Some((&res, 0.5)), &mut run);
    let want =
        plain_conv(&src[..2 * 6 * 40], 2, &conv.w, &conv.bias, 6, 40, true, Some((&res, 0.5)));
    assert_eq!(dst, want);
    assert_eq!(run.timings.len(), 0);
}

#[test]
fn weights_are_kept_in_both_layouts() {
    let w: Vec<f32> = (0..2 * 3 * 9).map(|i| i as f32).collect();
    let conv = Conv::from_parts(&w, &[1.0, 2.0], 3, 2);
    assert_eq!(conv.w, w);
    assert_eq!(conv.bias, vec![1.0, 2.0]);
    for oc in 0..2 {
        for k in 0..9 {
            for ci in 0..3 {
                assert_eq!(conv.w_cpu_ci[(oc * 9 + k) * 3 + ci], w[(oc * 3 + ci) * 9 + k]);
            }
        }
    }
}

#[test]
fn bands_divide_the_rows() {
    assert_eq!(band_count(24, 64, 256), 8);
    assert_eq!(band_count(24, 32, 12), 4);
    assert_eq!(band_count(24, 64, 6), 2);
    assert_eq!(band_count(24, 32, 6), 1);
    assert_eq!(band_count(24, 32, 37), 1);
    assert_eq!(band_count(24, 3, 256), 1);
    assert_eq!(band_count(1, 64, 256), 8);
    assert_eq!(oc_group(None), 3);
    assert_eq!(oc_group(Some(1)), 1);
    assert_eq!(oc_group(Some(2)), 2);
    assert_eq!(oc_group(Some(5)), 3);
    let tasks = band_tasks(7, 3, 2, 4);
    assert_eq!(tasks.len(), 6);
    assert_eq!(y_iter(0, 0, 4), None);
    assert_eq!(y_iter(0, 1, 4), Some(0));
    assert_eq!(y_iter(3, 2, 4), None);
    assert_eq!(y_iter(3, 0, 4), Some(2));
}

#[test]
fn rectifier_and_residual_are_scaled_by_a_fifth() {
    assert_eq!(leaky_relu(&Fp, 3.0f32), 3.0);
    assert_eq!(leaky_relu(&Fp, 0.0f32), 0.0);
    assert_eq!(leaky_relu(&Fp, -5.0f32), -1.0);
    assert_eq!(residual(&Fp, 10.0f32, 1.0), 3.0);
}

#[test]
fn planes_are_made_and_reshaped() {
    let mut p: Plane<f32> = Plane::new(2, 3, 4, 0.5);
    assert_eq!((p.c, p.h, p.w, p.data.len(), p.hw()), (2, 3, 4, 24, 12));
    p.data[5] = 9.0;
    p.set(1, 2, 3, 0.0);
    assert_eq!(p.data, vec![0.5, 0.5, 0.5, 0.5, 0.5, 9.0]);
    p.set(2, 2, 2, 1.0);
    assert_eq!(p.data, vec![0.5, 0.5, 0.5, 0.5, 0.5, 9.0, 1.0, 1.0]);
}

#[test]
fn pixels_are_doubled_and_unshuffled() {
    let p = Plane { c: 1, h: 2, w: 2, data: vec![1.0f32, 2.0, 3.0, 4.0] };
    let up = upsample2x_nearest(&p);
    assert_eq!((up.c, up.h, up.w), (1, 4, 4));
    assert_eq!(
        up.data,
        vec![1., 1., 2., 2., 1., 1., 2., 2., 3., 3., 4., 4., 3., 3., 4., 4.]
    );
    let un = pixel_unshuffle2(&up);
    assert_eq!((un.c, un.h, un.w), (4, 2, 2));
    for k in 0..4 {
        assert_eq!(&un.data[4 * k..4 * k + 4], &p.data[..]);
    }
    let odd = Plane { c: 1, h: 3, w: 5, data: (0..15).map(|v| v as f32).collect() };
    let un = pixel_unshuffle2(&odd);
    assert_eq!((un.c, un.h, un.w), (4, 1, 2));
    assert_eq!(un.data, vec![0., 2., 1., 3., 5., 7., 6., 8.]);
}

fn tiny(scale: usize, num_block: usize) -> Model<f32> {
    let (nf, ng, in_ch, out_ch) = (4usize, 2usize, 3usize, 3usize);
    let geom = Geometry { scale, num_feat: nf, num_block, num_grow_ch: ng, in_ch, out_ch };
    let first = if scale == 2 { in_ch * 4 } else { in_ch };
    let dense = |s: u32| DenseBlock {
        convs: [
            conv_of(nf, ng, s),
            conv_of(nf + ng, ng, s + 10),
            conv_of(nf + 2 * ng, ng, s + 20),
            conv_of(nf + 3 * ng, ng, s + 30),
            conv_of(nf + 4 * ng, nf, s + 40),
        ],
    };
    let mut blocks = Vec::new();
    for b in 0..num_block as u32 {
        let s = 1000 + 300 * b;
        blocks.push(Rrdb { rdbs: [dense(s), dense(s + 100), dense(s + 200)] });
    }
    Model {
        geom,
        conv_first: conv_of(first, nf, 1),
        blocks,
        conv_body: conv_of(nf, nf, 3),
        conv_up1: conv_of(nf, nf, 5),
        conv_up2: conv_of(nf, nf, 7),
        conv_hr: conv_of(nf, nf, 9),
        conv_last: conv_of(nf, out_ch, 11),
    }
}

fn run_conv(c: &Conv<f32>, src: &[f32], c_in: usize, h: usize, w: usize, act: bool) -> Vec<f32> {
    plain_conv(src, c_in, &c.w, &c.bias, h, w, act, None)
}

fn plain_up(v: &[f32], c: usize, h: usize, w: usize) -> Vec<f32> {
    let mut out = Vec::new();
    for ch in 0..c {
        for y in 0..2 * h {
            for x in 0..2 * w {
                out.push(v[(ch * h + y / 2) * w + x / 2]);
            }
        }
    }
    out
}

fn plain_forward(m: &Model<f32>, p: &Plane<f32>) -> Vec<f32> {
    let (nf, ng) = (m.geom.num_feat, m.geom.num_grow_ch);
    let (feat, c, h, w) = if m.geom.scale == 2 {
        let u = pixel_unshuffle2(p);
        (u.data, u.c, u.h, u.w)
    } else {
        (p.data.clone(), p.c, p.h, p.w)
    };
    let first = run_conv(&m.conv_first, &feat, c, h, w, false);
    let mut cur = first.clone();
    for b in 0..m.geom.num_block {
        let mut x = cur.clone();
        for r in 0..3 {
            let blk = &m.blocks[b].rdbs[r];
            let mut ws = x.clone();
            for k in 0..4 {
                let out = run_conv(&blk.convs[k], &ws, nf + k * ng, h, w, true);
                ws.extend_from_slice(&out);
            }
            let x5 = run_conv(&blk.convs[4], &ws, nf + 4 * ng, h, w, false);
            x = x5.iter().zip(x.iter()).map(|(a, b)| a * 0.2 + b).collect();
        }
        cur = x.iter().zip(cur.iter()).map(|(a, b)| a * 0.2 + b).collect();
    }
    let body = run_conv(&m.conv_body, &cur, nf, h, w, false);
    let mut v: Vec<f32> = first.iter().zip(body.iter()).map(|(a, b)| a + b).collect();
    v = run_conv(&m.conv_up1, &plain_up(&v, nf, h, w), nf, 2 * h, 2 * w, true);
    v = run_conv(&m.conv_up2, &plain_up(&v, nf, 2 * h, 2 * w), nf, 4 * h, 4 * w, true);
    v = run_conv(&m.conv_hr, &v, nf, 4 * h, 4 * w, true);
    run_conv(&m.conv_last, &v, nf, 4 * h, 4 * w, false)
}

fn image(h: usize, w: usize) -> Plane<f32> {
    Plane { c: 3, h, w, data: noise(3 * h * w, 42) }
}

#[test]
fn forward_pass_is_the_network() {
    for (scale, blocks) in [(4usize, 2usize), (2, 1), (4, 0)] {
        let m = tiny(scale, blocks);
        let p = image(6, 8);
        let mut run = HostRun::new(None, true);
        let (out, stages) = forward_cpu(&Fp, &m, &p, &mut run);
        assert_eq!((out.c, out.h, out.w), (3, 6 * scale, 8 * scale));
        assert_eq!(out.data, plain_forward(&m, &p));
        let mut want = vec![
            Stage::ConvFirst,
            Stage::Body,
            Stage::ConvBody,
            Stage::Upsample,
            Stage::Head,
        ];
        if scale == 2 {
            want.insert(0, Stage::PixelUnshuffle);
        }
        assert_eq!(stages, want);
        assert_eq!(run.timings.len(), 6 + 15 * blocks);
    }
}

#[test]
fn odd_image_loses_its_last_row_and_column_in_the_x2_model() {
    let m = tiny(2, 1);
    let p = image(5, 7);
    let mut run = HostRun::new(None, false);
    let (out, _) = forward_cpu(&Fp, &m, &p, &mut run);
    assert_eq!((out.c, out.h, out.w), (3, 8, 12));
}

#[test]
fn steps_hand_out_what_is_to_be_written() {
    let m = tiny(2, 1);
    let p = image(4, 4);
    let mut run = HostRun::new(None, false);
    let mut pass = Pass::new(&m.geom, &p);
    let mut names = Vec::new();
    let mut said = Vec::new();
    while pass.phase != Phase::Done {
        if let Some(s) = pass.stage(&m.geom) {
            said.push(s.name());
        }
        for d in pass.step(&Fp, &m, true, &mut run) {
            assert_eq!(d.plane.data.len(), d.plane.c * d.plane.h * d.plane.w);
            names.push(d.name);
        }
    }
    assert_eq!(
        names,
        vec![
            "00_unshuffle",
            "01_conv_first",
            "02_b0r0_conv1",
            "03_b0r0_conv2",
            "04_b0r0_conv5",
            "05_after_body",
            "06_after_residual",
            "07_up1",
            "08_up2",
            "09_hr",
            "10_out",
        ]
    );
    assert_eq!(
        said,
        vec!["pixel_unshuffle", "conv_first", "body", "conv_body", "upsample", "head"]
    );
    assert_eq!(pass.cur.data, plain_forward(&m, &p));
}

#[test]
fn first_dense_block_is_dumped_as_it_grew() {
    let m = tiny(4, 1);
    let p = image(3, 4);
    let mut run = HostRun::new(None, false);
    let mut pass = Pass::new(&m.geom, &p);
    pass.step(&Fp, &m, false, &mut run);
    pass.step(&Fp, &m, false, &mut run);
    let x = pass.cur.data.clone();
    let d = pass.step(&Fp, &m, true, &mut run);
    assert_eq!(d.len(), 3);
    let blk = &m.blocks[0].rdbs[0];
    let c1 = run_conv(&blk.convs[0], &x, 4, 3, 4, true);
    assert_eq!(d[0].plane.data, c1);
    let mut ws = x.clone();
    ws.extend_from_slice(&c1);
    assert_eq!(d[1].plane.data, run_conv(&blk.convs[1], &ws, 6, 3, 4, true));
    assert_eq!((d[2].plane.c, d[2].plane.h, d[2].plane.w), (4, 3, 4));
}

#[test]
fn convolution_takes_a_fresh_plane() {
    let conv = conv_of(2, 3, 1);
    let src = noise(2 * 4 * 5, 2);
    let mut dst = Plane { c: 9, h: 4, w: 5, data: vec![1f32; 7] };
    let mut run = HostRun::new(None, false);
    conv_to(&Fp, &src, 2, &mut dst, &conv, true, &mut run);
    assert_eq!((dst.c, dst.h, dst.w), (3, 4, 5));
    assert_eq!(dst.data, plain_conv(&src, 2, &conv.w, &conv.bias, 4, 5, true, None));
}

#[test]
fn passes_that_cannot_be_held_are_told() {
    let g = Geometry {
        scale: 4,
        num_feat: 64,
        num_block: 23,
        num_grow_ch: 32,
        in_ch: 3,
        out_ch: 3,
    };
    assert!(can_hold(&g, 256, 256));
    assert!(!can_hold(&g, 0, 256));
    assert!(!can_hold(&g, usize::MAX / 4, 256));
    let huge = Geometry { num_grow_ch: usize::MAX, ..g };
    assert!(!can_hold(&huge, 2, 2));
    assert_eq!(g.dense_width(), 192);
    assert_eq!(g.first_in_ch(), 3);
    assert_eq!(Geometry { scale: 2, ..g }.first_in_ch(), 12);
}

#[test]
fn profile_is_grouped_by_shape() {
    let key = |c_in: usize, act: bool| ConvKey { c_in, c_out: 4, h: 2, w: 2, act };
    let t = |k: ConvKey, nanos: u64| ConvTiming { key: k, nanos };
    let v = vec![
        t(key(1, true), 5),
        t(key(2, true), 30),
        t(key(1, true), 7),
        t(key(1, false), 100),
        t(key(2, true), 1),
    ];
    let rows = profile_rows(&v);
    let got: Vec<(usize, bool, u128, usize)> =
        rows.iter().map(|r| (r.key.c_in, r.key.act, r.nanos, r.count)).collect();
    assert_eq!(got, vec![(1, false, 100, 1), (2, true, 31, 2), (1, true, 12, 2)]);
    assert_eq!(profile_total(&v), 143);
    assert_eq!(rows.iter().map(|r| r.nanos).sum::<u128>(), 143);
    assert_eq!(profile_rows(&[]).len(), 0);
}
