//! The launch table, the device program and its launches.

use realesrgan::arith::Arith;
use realesrgan::bench::fused_shapes;
use realesrgan::bench::gemm_reference;
use realesrgan::bench::large_gemms;
use realesrgan::bench::network_gemms;
use realesrgan::bench::pattern;
use realesrgan::bench::BenchShape;
use realesrgan::bench::GemmShape;
use realesrgan::conv::Conv;
use realesrgan::device::check_size;
use realesrgan::device::kernel_names;
use realesrgan::device::module_of;
use realesrgan::device::profile_key;
use realesrgan::device::DeviceInfo;
use realesrgan::device::Module;
use realesrgan::forward::forward_cpu;
use realesrgan::image::Image;
use realesrgan::launch::forward_calls;
use realesrgan::launch::over_elements;
use realesrgan::launch::over_plane;
use realesrgan::launch::Addresses;
use realesrgan::launch::ConvChoice;
use realesrgan::layout::pack;
use realesrgan::layout::Layout;
use realesrgan::model::DenseBlock;
use realesrgan::model::Geometry;
use realesrgan::model::Model;
use realesrgan::model::Rrdb;
use realesrgan::plane::Plane;
use realesrgan::profile::HostRun;
use realesrgan::program::Buf;
use realesrgan::program::DeviceOp;
use realesrgan::program::Extent;
use realesrgan::selftest::add_scaled_call;
use realesrgan::selftest::conv_cases;
use realesrgan::selftest::copy_call;
use realesrgan::selftest::lrelu_call;
use realesrgan::selftest::noise;
use realesrgan::selftest::unshuffle_call;
use realesrgan::selftest::upsample_call;
use realesrgan::selftest::worst_gap;
use realesrgan::selftest::Gaps;
use realesrgan::shape::ceil_div;
use realesrgan::shape::Arg;
use realesrgan::shape::ConvShape;
use realesrgan::shape::Launch;
use realesrgan::shape::Operands;
use realesrgan::shuffle::pixel_unshuffle2;
use realesrgan::shuffle::upsample2x_nearest;
use realesrgan::tile::crop;
use realesrgan::tile::paste;
use realesrgan::tile::plan;

struct Fp;

impl Arith<f32> for Fp {
    fn zero(&self) -> f32 {
        0.0
    }
    fn fifth(&self) -> f32 {
        0.2
    }
    fn plus(&self, a: f32, b: f32) -> f32 {
        a + b
    }
    fn times(&self, a: f32, b: f32) -> f32 {
        a * b
    }
    fn mul_acc(&self, w: f32, x: f32, acc: f32) -> f32 {
        w.mul_add(x, acc)
    }
    fn at_least_zero(&self, v: f32) -> bool {
        v >= 0.0
    }
}

impl Gaps<f32> for Fp {
    fn none(&self) -> f32 {
        0.0
    }
    fn gap(&self, a: f32, b: f32) -> f32 {
        (a - b).abs()
    }
    fn larger(&self, m: f32, g: f32) -> f32 {
        m.max(g)
    }
}

#[test]
fn table_has_two_rows() {
    let wg = ConvShape::by_name("wg").unwrap();
    assert!(wg.is_toolkit_winograd());
    assert_eq!(wg.name, "lg_conv3x3_winograd");
    assert_eq!((wg.ty, wg.cx, wg.tx, wg.buffers), (16, 4, 16, 1));
    assert_eq!((wg.smem_per_chunk, wg.ocb, wg.oc_per_cta), (1152, 16, 16));
    assert_eq!(wg.block(), (256, 1, 1));
    assert_eq!(wg.cta_out(), (16, 16));
    let d = ConvShape::by_name("direct").unwrap();
    assert!(!d.is_toolkit_winograd());
    assert_eq!(d.name, "lg_conv3x3_res");
    assert_eq!(d.span(), 32);
    assert_eq!((d.smem_per_chunk, d.ocb, d.oc_per_cta), (340, 8, 8));
    assert_eq!(d.block(), (32, 8, 1));
    assert_eq!(d.cta_out(), (32, 8));
    assert!(ConvShape::by_name("winograd").is_none());
    assert!(ConvShape::by_name("").is_none());
    assert_eq!(ConvShape::by_index(0).name, "lg_conv3x3_res");
    assert_eq!(ConvShape::by_index(14).name, "lg_conv3x3_winograd");
    assert_eq!(ConvShape::tiled("x", 4, 2, 16, 2).smem_per_chunk, 34 * 6);
    assert_eq!(ConvShape::winograd().name, "lg_conv3x3_winograd");
}

#[test]
fn chunk_is_clamped_to_shared_memory() {
    let wg = ConvShape::winograd();
    assert_eq!(wg.chunk_and_smem(16), (10, 46080));
    assert_eq!(wg.chunk_and_smem(4), (4, 18432));
    assert_eq!(wg.chunk_and_smem(0), (1, 4608));
    assert_eq!(wg.chunk_and_smem(-7), (1, 4608));
    assert_eq!(wg.chunk_and_smem(i32::MAX), (10, 46080));
    let d = ConvShape::by_index(0);
    assert_eq!(d.chunk_and_smem(16), (16, 21760));
    assert_eq!(d.chunk_and_smem(1000), (36, 48960));
    // The largest row that one channel of fits.
    let big = ConvShape { smem_per_chunk: 12288, ..wg };
    assert_eq!(big.chunk_and_smem(16), (1, 49152));
}

#[test]
fn grid_covers_image_and_channels() {
    let wg = ConvShape::winograd();
    let l = wg.launch(37, 29, 64, 5);
    assert_eq!(l, Launch { grid: (3, 2, 4), block: (256, 1, 1), shared: 5 });
    let d = ConvShape::by_index(0);
    let l = d.launch(37, 29, 4, 0);
    assert_eq!(l, Launch { grid: (2, 4, 1), block: (32, 8, 1), shared: 0 });
    assert_eq!(ceil_div(0, 7), 0);
    assert_eq!(ceil_div(u32::MAX, 1), u32::MAX);
    assert_eq!(ceil_div(u32::MAX, 2), 0x8000_0000);
    assert_eq!(over_elements(0).grid.0, 1);
    assert_eq!(over_elements(1).grid.0, 1);
    assert_eq!(over_elements(257).grid, (2, 1, 1));
    assert_eq!(over_plane(0, 0).grid, (1, 1, 1));
    assert_eq!(over_plane(33, 8).grid, (2, 1, 1));
    assert_eq!(over_plane(33, 8).block, (32, 8, 1));
}

fn operands(act: bool) -> Operands {
    Operands { src: 1, weights: 2, bias: 3, dst: 4, c_in: 5, c_out: 6, h: 7, w: 8, act }
}

#[test]
fn rows_take_different_arguments() {
    let wg = ConvShape::winograd().args(&operands(true), 9);
    assert_eq!(wg.len(), 12);
    assert_eq!(wg[0], Arg::Ptr(1));
    assert_eq!(wg[3], Arg::Ptr(4));
    assert_eq!(wg[8], Arg::I32(9));
    assert_eq!(wg[9], Arg::I32(16));
    assert_eq!(wg[10], Arg::I32(2));
    assert_eq!(wg[11], Arg::F32(0.2f32.to_bits()));
    assert_eq!(ConvShape::winograd().args(&operands(false), 9)[10], Arg::I32(0));
    let d = ConvShape::by_index(0).args(&operands(true), 9);
    assert_eq!(
        d,
        vec![
            Arg::Ptr(1),
            Arg::Ptr(2),
            Arg::Ptr(3),
            Arg::Ptr(4),
            Arg::I32(5),
            Arg::I32(6),
            Arg::I32(7),
            Arg::I32(8),
            Arg::I32(1),
        ]
    );
    assert_eq!(realesrgan::shape::ONE_BITS, 1.0f32.to_bits());
}

fn floats(n: usize, seed: u32) -> Vec<f32> {
    noise(n, seed).iter().map(|v| *v as f32 / 16777216.0 - 0.5).collect()
}

fn conv_of(c_in: usize, c_out: usize, seed: u32) -> Conv<f32> {
    Conv::from_parts(&floats(c_out * c_in * 9, seed), &floats(c_out, seed + 1), c_in, c_out)
}

fn tiny(scale: usize, num_block: usize) -> Model<f32> {
    let (nf, ng) = (4usize, 2usize);
    let geom = Geometry { scale, num_feat: nf, num_block, num_grow_ch: ng, in_ch: 3, out_ch: 3 };
    let dense = |s: u32| DenseBlock {
        convs: [
            conv_of(nf, ng, s),
            conv_of(nf + ng, ng, s + 10),
            conv_of(nf + 2 * ng, ng, s + 20),
            conv_of(nf + 3 * ng, ng, s + 30),
            conv_of(nf + 4 * ng, nf, s + 40),
        ],
    };
    let mut blocks = Vec::new();
    for b in 0..num_block as u32 {
        let s = 1000 + 300 * b;
        blocks.push(Rrdb { rdbs: [dense(s), dense(s + 100), dense(s + 200)] });
    }
    Model {
        geom,
        conv_first: conv_of(if scale == 2 { 12 } else { 3 }, nf, 1),
        blocks,
        conv_body: conv_of(nf, nf, 3),
        conv_up1: conv_of(nf, nf, 5),
        conv_up2: conv_of(nf, nf, 7),
        conv_hr: conv_of(nf, nf, 9),
        conv_last: conv_of(nf, 3, 11),
    }
}

fn index(b: Buf) -> usize {
    match b {
        Buf::Stage => 0,
        Buf::Feat => 1,
        Buf::Ws => 2,
        Buf::Cur => 3,
        Buf::X5 => 4,
        Buf::Rdb => 5,
        Buf::Save => 6,
        Buf::Skip => 7,
        Buf::Body => 8,
        Buf::Up1 => 9,
        Buf::Up2 => 10,
        Buf::Hr => 11,
        Buf::Out => 12,
    }
}

const BUFS: [Buf; 13] = [
    Buf::Stage,
    Buf::Feat,
    Buf::Ws,
    Buf::Cur,
    Buf::X5,
    Buf::Rdb,
    Buf::Save,
    Buf::Skip,
    Buf::Body,
    Buf::Up1,
    Buf::Up2,
    Buf::Hr,
    Buf::Out,
];

/// A device in memory: runs the program with the host's own kernels, the weights
/// taken from the packed buffer.
fn run_program(m: &Model<f32>, e: &Extent, image: &[f32]) -> Vec<f32> {
    let lay = Layout::new(m);
    let weights = pack(m, &lay, 0.0);
    let mut mem: Vec<Vec<f32>> = BUFS.iter().map(|b| vec![9.5; e.buffer_len(*b)]).collect();
    let from = if m.geom.scale == 2 { Buf::Stage } else { Buf::Feat };
    mem[index(from)].copy_from_slice(image);
    let mut run = HostRun::new(None, false);
    for op in e.forward_ops() {
        match op {
            DeviceOp::Unshuffle { c, h, w } => {
                let p = Plane { c, h, w, data: mem[0].clone() };
                mem[1] = pixel_unshuffle2(&p).data;
            }
            DeviceOp::Conv { layer, src, dst, dst_ch, c_in, c_out, h, w, act } => {
                let at = lay.at(layer);
                let conv = Conv::from_parts(
                    &weights[at.w..at.w + c_out * c_in * 9],
                    &weights[at.b..at.b + c_out],
                    c_in,
                    c_out,
                );
                let s = mem[index(src)][..c_in * h * w].to_vec();
                let d = &mut mem[index(dst)][dst_ch * h * w..(dst_ch + c_out) * h * w];
                realesrgan::conv3x3::conv3x3_prefix_pub(
                    &Fp, &s, c_in, d, &conv, h, w, act, None, &mut run,
                );
            }
            DeviceOp::Copy { src, dst, n } => {
                let s = mem[index(src)][..n].to_vec();
                mem[index(dst)][..n].copy_from_slice(&s);
            }
            DeviceOp::AddScaled { a, b, dst, n, fifth } => {
                for i in 0..n {
                    let (x, y) = (mem[index(a)][i], mem[index(b)][i]);
                    mem[index(dst)][i] = if fifth { y * 0.2 + x } else { x + y };
                }
            }
            DeviceOp::Upsample { src, dst, c, h, w } => {
                let p = Plane { c, h, w, data: mem[index(src)][..c * h * w].to_vec() };
                let u = upsample2x_nearest(&p).data;
                mem[index(dst)][..u.len()].copy_from_slice(&u);
            }
        }
    }
    mem[12].clone()
}

#[test]
fn program_computes_what_the_host_computes() {
    for (scale, blocks) in [(4usize, 2usize), (2, 1), (4, 0)] {
        let m = tiny(scale, blocks);
        let (w, h) = (6usize, 4usize);
        let e = Extent::new(&m.geom, w, h);
        assert!(e.is_wf());
        let image = floats(3 * w * h, 3);
        let p = Plane { c: 3, h, w, data: image.clone() };
        let mut run = HostRun::new(None, false);
        let (host, _) = forward_cpu(&Fp, &m, &p, &mut run);
        assert_eq!(run_program(&m, &e, &image), host.data);
        assert_eq!(e.forward_ops().len(), 10 + 27 * blocks + if scale == 2 { 1 } else { 0 });
    }
}

fn host(m: &Model<f32>, p: &Plane<f32>) -> Plane<f32> {
    forward_cpu(&Fp, m, p, &mut HostRun::new(None, false)).0
}

/// The tiled result and the one of a single pass.
fn both(m: &Model<f32>, w: usize, h: usize, tile: usize, pad: usize) -> (Vec<f32>, Vec<f32>) {
    let img = Image { w, h, data: floats(3 * w * h, 77) };
    let scale = m.geom.scale;
    let mut out = Plane::new(3, h * scale, w * scale, 0.0);
    for t in plan(w, h, tile, pad).unwrap() {
        paste(&mut out, &host(m, &crop(&img, &t)).data, &t, scale);
    }
    let whole = host(m, &Plane { c: 3, h, w, data: img.data });
    (out.data, whole.data)
}

#[test]
fn tiles_with_enough_context_leave_no_seams() {
    // A pixel of the result looks 13 pixels far without blocks, 73 with one.
    for (scale, blocks, w, h, tile, pad) in [
        (4usize, 0usize, 23usize, 17usize, 6usize, 4usize),
        (2, 0, 26, 18, 6, 8),
        (4, 1, 45, 8, 9, 19),
    ] {
        let (tiled, whole) = both(&tiny(scale, blocks), w, h, tile, pad);
        assert_eq!(tiled, whole);
    }
    let (tiled, whole) = both(&tiny(4, 0), 23, 17, 6, 1);
    assert_ne!(tiled, whole);
}

fn addresses(e: &Extent) -> Addresses {
    let mut next: u64 = 1 << 20;
    let mut at = |b: Buf| {
        let p = next;
        next += 4 * e.buffer_len(b) as u64 + 256;
        p
    };
    Addresses {
        stage: at(Buf::Stage),
        feat: at(Buf::Feat),
        ws: at(Buf::Ws),
        cur: at(Buf::Cur),
        x5: at(Buf::X5),
        rdb: at(Buf::Rdb),
        save: at(Buf::Save),
        skip: at(Buf::Skip),
        body: at(Buf::Body),
        up1: at(Buf::Up1),
        up2: at(Buf::Up2),
        hr: at(Buf::Hr),
        out: at(Buf::Out),
        weights: 0x10_0000_0000,
    }
}

#[test]
fn pass_is_lowered_to_kernel_calls() {
    let m = tiny(2, 1);
    let e = Extent::new(&m.geom, 40, 40);
    let lay = Layout::new(&m);
    let a = addresses(&e);
    assert!(a.holds(&e, lay.floats));
    let choice = ConvChoice { variant: None, c_chunk: None };
    let calls = forward_calls(&e, &a, &m, &lay, &choice).ok().unwrap();
    assert_eq!(calls.len(), e.forward_ops().len());
    let names = kernel_names();
    for c in &calls {
        assert!(names.contains(&c.name));
    }
    assert_eq!(calls[0].name, "lg_pixel_unshuffle2");
    assert_eq!(calls[0].launch.grid, (1, 3, 1));
    assert_eq!(
        calls[0].args,
        vec![Arg::Ptr(a.stage), Arg::Ptr(a.feat), Arg::I32(3), Arg::I32(40), Arg::I32(40)]
    );
    // The first convolution, at 20 by 20 pixels.
    let c = &calls[1];
    assert_eq!(c.name, "lg_conv3x3_winograd");
    assert_eq!(c.launch, Launch { grid: (2, 2, 1), block: (256, 1, 1), shared: 46080 });
    assert_eq!(c.args[0], Arg::Ptr(a.feat));
    assert_eq!(c.args[1], Arg::Ptr(a.weights));
    assert_eq!(c.args[2], Arg::Ptr(a.weights + 4 * (4 * 12 * 9)));
    assert_eq!(c.args[3], Arg::Ptr(a.cur));
    assert_eq!(c.args[4], Arg::I32(12));
    // The second convolution of the first dense block reads six channels and
    // writes the slot behind them.
    let c = &calls[6];
    assert_eq!(c.args[0], Arg::Ptr(a.ws));
    assert_eq!(c.args[3], Arg::Ptr(a.ws + 4 * 6 * 400));
    assert_eq!(c.args[4], Arg::I32(6));
    assert_eq!(c.args[10], Arg::I32(2));
    // The residual of the dense block.
    let c = &calls[10];
    assert_eq!(c.name, "lg_add_scaled");
    assert_eq!(
        c.args,
        vec![
            Arg::Ptr(a.cur),
            Arg::Ptr(a.x5),
            Arg::Ptr(a.rdb),
            Arg::I64(1600),
            Arg::F32(0.2f32.to_bits()),
        ]
    );
    assert_eq!(c.launch.grid, (7, 1, 1));
    assert_eq!(calls[11].name, "lg_copy");
    let last = calls.last().unwrap();
    assert_eq!(last.args[0], Arg::Ptr(a.up2));
    assert_eq!(last.args[3], Arg::Ptr(a.out));
    let sum = &calls[calls.len() - 7];
    assert_eq!(sum.args[4], Arg::F32(1.0f32.to_bits()));
    let up = &calls[calls.len() - 6];
    assert_eq!(up.name, "lg_upsample2x_nearest");
    assert_eq!(up.launch.grid, (2, 5, 1));
}

#[test]
fn small_images_take_the_direct_convolution() {
    let m = tiny(4, 0);
    let e = Extent::new(&m.geom, 15, 40);
    let lay = Layout::new(&m);
    let a = addresses(&e);
    let choice = ConvChoice { variant: Some("wg".to_string()), c_chunk: Some(3) };
    let calls = forward_calls(&e, &a, &m, &lay, &choice).ok().unwrap();
    assert_eq!(calls[0].name, "lg_conv3x3_res");
    assert_eq!(calls[0].launch, Launch { grid: (1, 5, 1), block: (32, 8, 1), shared: 0 });
    assert_eq!(calls[0].args.len(), 9);
    // Behind the first enlargement the image is large enough.
    assert_eq!(calls[5].name, "lg_conv3x3_winograd");
    assert_eq!(calls[5].args[8], Arg::I32(3));
    let choice = ConvChoice { variant: Some("direct".to_string()), c_chunk: None };
    let calls = forward_calls(&e, &a, &m, &lay, &choice).ok().unwrap();
    assert_eq!(calls[5].name, "lg_conv3x3_res");
    assert_eq!(calls[5].launch.shared, 21760);
}

#[test]
fn unknown_row_is_an_error() {
    let m = tiny(4, 0);
    let e = Extent::new(&m.geom, 16, 16);
    let lay = Layout::new(&m);
    let a = addresses(&e);
    let choice = ConvChoice { variant: Some("fast".to_string()), c_chunk: None };
    assert_eq!(
        forward_calls(&e, &a, &m, &lay, &choice).err().unwrap(),
        "unknown LA_CONV `fast` (see ConvShape::by_name: \"wg\" or \"direct\")"
    );
}

#[test]
fn buffers_have_the_sizes_of_their_stage() {
    let g = Geometry {
        scale: 2,
        num_feat: 64,
        num_block: 23,
        num_grow_ch: 32,
        in_ch: 3,
        out_ch: 3,
    };
    let e = Extent::new(&g, 20, 12);
    assert_eq!((e.w, e.h), (10, 6));
    assert_eq!(e.buffer_len(Buf::Stage), 3 * 20 * 12);
    assert_eq!(e.buffer_len(Buf::Feat), 12 * 60);
    assert_eq!(e.buffer_len(Buf::Ws), 192 * 60);
    assert_eq!(e.buffer_len(Buf::Cur), 64 * 60);
    assert_eq!(e.buffer_len(Buf::Up1), 64 * 240);
    assert_eq!(e.buffer_len(Buf::Up2), 64 * 960);
    assert_eq!(e.buffer_len(Buf::Hr), 64 * 960);
    assert_eq!(e.buffer_len(Buf::Out), 3 * 40 * 24);
    assert!(!Extent::new(&g, 1, 12).is_wf());
    assert!(!Extent { h: 7, ..e }.is_wf());
    // The x2 model's result has twice the size: odd images are refused.
    assert!(!Extent::new(&g, 3, 3).is_wf());
    assert!(!Extent::new(&g, 20, 13).is_wf());
    assert!(Extent::new(&Geometry { scale: 4, ..g }, 3, 3).is_wf());
    let far = Addresses { out: u64::MAX - 3, ..addresses(&e) };
    assert!(!far.holds(&e, 10));
}

#[test]
fn kernels_are_looked_up_in_the_project_first() {
    assert_eq!(module_of("k", true, true), Ok(Module::Project));
    assert_eq!(module_of("k", true, false), Ok(Module::Project));
    assert_eq!(module_of("k", false, true), Ok(Module::Toolkit));
    assert_eq!(module_of("k", false, false), Err("kernel k is in neither module".to_string()));
    assert_eq!(kernel_names()[0], "lg_conv3x3_res");
    assert_eq!(kernel_names()[9], "lg_conv3x3_winograd");
    let info = DeviceInfo {
        name: "card".to_string(),
        cc_major: 7,
        cc_minor: 5,
        sm_count: 20,
        smem_per_block: 49152,
        free_vram: 1 << 30,
    };
    assert_eq!(info.clone().name, "card");
}

#[test]
fn transfers_have_the_length_of_the_buffer() {
    assert_eq!(check_size("upload", 5, 5), Ok(()));
    assert_eq!(check_size("upload", 5, 60), Err("upload size 5 != buffer 60".to_string()));
    assert_eq!(check_size("download", 0, 1), Err("download size 0 != buffer 1".to_string()));
    let l = Launch { grid: (8, 16, 4), block: (256, 1, 1), shared: 0 };
    assert_eq!(profile_key("lg_copy", &l), "lg_copy g8x16x4 b256x1");
}

#[test]
fn noise_is_the_congruential_generator() {
    for seed in [0u32, 11, 23, 4_000_000_000] {
        let mut s = seed.wrapping_mul(2654435761).wrapping_add(1);
        let mut want = Vec::new();
        for _ in 0..20 {
            s = s.wrapping_mul(1664525).wrapping_add(1013904223);
            want.push(s >> 8);
        }
        assert_eq!(noise(20, seed), want);
    }
}

#[test]
fn comparisons_are_launched_from_the_table() {
    let cases = conv_cases();
    assert_eq!(cases.len(), 17);
    assert_eq!((cases[0].c_in, cases[0].c_out, cases[0].act, cases[0].variant), (3, 64, false, 0));
    assert_eq!((cases[13].c_in, cases[13].c_out, cases[13].variant), (32, 128, 14));
    assert_eq!(cases[1].seeds(), (64 * 7 + 32, 32 * 13 + 5, 32 + 99));
    for case in &cases {
        assert!(kernel_names().contains(&case.call(1, 2, 3).name));
    }
    let c = cases[0].call(100, 200, 300);
    assert_eq!(c.name, "lg_conv3x3_res");
    assert_eq!(c.launch, Launch { grid: (2, 4, 8), block: (32, 8, 1), shared: 21760 });
    assert_eq!(&c.args[..4], &[Arg::Ptr(100), Arg::Ptr(200 + 256), Arg::Ptr(200), Arg::Ptr(300)][..]);
    let c = cases[6].call(100, 200, 300);
    assert_eq!(c.name, "lg_conv3x3_winograd");
    assert_eq!(c.launch, Launch { grid: (3, 2, 4), block: (256, 1, 1), shared: 46080 });
    let c = unshuffle_call(1, 2, 3, 24, 20);
    assert_eq!(c.launch.grid, (1, 2, 1));
    assert_eq!(c.args[3], Arg::I32(24));
    let c = upsample_call(1, 2, 5, 13, 9);
    assert_eq!(c.launch.grid, (1, 4, 1));
    let c = add_scaled_call(1, 2, 3, 1000);
    assert_eq!(c.launch.grid, (4, 1, 1));
    assert_eq!(c.args[4], Arg::F32(0.2f32.to_bits()));
    let c = lrelu_call(1, 2, 1000);
    assert_eq!(c.args[2], Arg::F32(0.2f32.to_bits()));
    assert_eq!(c.args[3], Arg::I64(1000));
    assert_eq!(copy_call(1, 2, 7).args, vec![Arg::Ptr(1), Arg::Ptr(2), Arg::I64(7)]);
    assert_eq!(worst_gap(&Fp, &[1.0f32, 5.0, -2.0], &[1.5, 4.0, -2.25]), 1.0);
    assert_eq!(worst_gap(&Fp, &[1.0f32, 5.0], &[1.0]), 0.0);
    assert_eq!(worst_gap(&Fp, &[], &[1.0f32]), 0.0);
}

#[test]
fn measurements_have_their_shapes() {
    let v = fused_shapes();
    assert_eq!(v.len(), 11);
    assert_eq!(v[1], BenchShape { c_in: 3, c_out: 64, h: 256, w: 256 });
    assert_eq!(v[0].products(), 64 * 64 * 9 * 65536);
    let c = v[0].call(&None, 10, 20, 30).unwrap();
    assert_eq!(c.name, "lg_conv3x3_winograd");
    assert_eq!(c.args[2], Arg::Ptr(20 + 64 * 64 * 9 * 4));
    let named = |n: &str| v[0].call(&Some(n.to_string()), 1, 2, 3);
    assert_eq!(named("direct").ok().unwrap().name, "lg_conv3x3_res");
    assert_eq!(named("wg").ok().unwrap().name, "lg_conv3x3_winograd");
    assert_eq!(
        named("other").err().unwrap(),
        "unknown LA_CONV `other` (see ConvShape::by_name: \"wg\" or \"direct\")"
    );
    assert_eq!(network_gemms().len(), 3);
    assert_eq!(large_gemms()[3], GemmShape { ne0: 64, ne1: 128, ncols: 262144 });
    let c = GemmShape { ne0: 8, ne1: 65, ncols: 33 }.call(1, 2, 3);
    assert_eq!(c.launch, Launch { grid: (2, 2, 1), block: (256, 1, 1), shared: 0 });
    assert_eq!(c.args[3], Arg::I32(8));
    assert!(kernel_names().contains(&c.name));
    assert_eq!(pattern(5, 7, 11), vec![0, 7, 3, 10, 6]);
}

#[test]
fn reference_product_is_the_sum_of_products() {
    let s = GemmShape { ne0: 2, ne1: 3, ncols: 2 };
    let w = [1.0f32, 2.0, 3.0, 4.0, 5.0, 6.0];
    let x = [10.0f32, 1.0, 0.5, 2.0];
    assert_eq!(
        gemm_reference(&Fp, &s, &w, &x),
        vec![12.0, 34.0, 56.0, 4.5, 9.5, 14.5]
    );
}
