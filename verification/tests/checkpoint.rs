//! Opening a checkpoint, loading the model, and laying its weights out.

use realesrgan::layout::pack;
use realesrgan::layout::ConvLoc;
use realesrgan::layout::Layout;
use realesrgan::model::Model;
use realesrgan::text::push_decimal;
use realesrgan::text::push_list;
use realesrgan::text::same_text;
use realesrgan::weights::dense_text;
use realesrgan::weights::Config;
use realesrgan::weights::LoadError;
use realesrgan::weights::Metadata;
use realesrgan::weights::Tensor;
use realesrgan::weights::Weights;

const NF: usize = 4;
const NG: usize = 2;

fn meta(scale: usize, blocks: usize) -> Metadata {
    Metadata {
        scale: Some(scale),
        num_feat: Some(NF),
        num_block: Some(blocks),
        num_grow_ch: Some(NG),
        in_ch: Some(3),
        out_ch: Some(3),
    }
}

/// The names and shapes of a checkpoint, weights and biases.
fn shapes(scale: usize, blocks: usize) -> Vec<(String, Vec<usize>)> {
    let mut v: Vec<(String, usize, usize)> = Vec::new();
    v.push(("conv_first".to_string(), NF, if scale == 2 { 12 } else { 3 }));
    for b in 0..blocks {
        for r in 1..=3 {
            for k in 1..=5 {
                let c_out = if k < 5 { NG } else { NF };
                v.push((format!("body.{b}.rdb{r}.conv{k}"), c_out, NF + (k - 1) * NG));
            }
        }
    }
    for n in ["conv_body", "conv_up1", "conv_up2", "conv_hr"] {
        v.push((n.to_string(), NF, NF));
    }
    v.push(("conv_last".to_string(), 3, NF));
    let mut out = Vec::new();
    for (n, c_out, c_in) in v {
        out.push((format!("{n}.weight"), vec![c_out, c_in, 3, 3]));
        out.push((format!("{n}.bias"), vec![c_out]));
    }
    out
}

/// Values for the shapes: counted up, so that every place is told apart.
fn values(shapes: &[(String, Vec<usize>)]) -> Vec<Vec<f32>> {
    let mut next = 0;
    let mut out = Vec::new();
    for (_, s) in shapes {
        let n: usize = s.iter().product();
        out.push((next..next + n).map(|i| i as f32).collect());
        next += n;
    }
    out
}

fn tensors<'a>(shapes: &[(String, Vec<usize>)], data: &'a [Vec<f32>]) -> Vec<Tensor<'a, f32>> {
    shapes
        .iter()
        .zip(data.iter())
        .map(|((n, s), d)| Tensor { name: n.clone(), shape: s.clone(), data: Some(&d[..]) })
        .collect()
}

fn open_err(t: Vec<Tensor<'_, f32>>, m: &Metadata) -> String {
    match Weights::open(t, 0, m) {
        Ok(_) => panic!("opened"),
        Err(e) => e.message(),
    }
}

#[test]
fn sound_checkpoint_opens_and_loads() {
    for (scale, blocks) in [(4usize, 2usize), (2, 1), (4, 0)] {
        let s = shapes(scale, blocks);
        let d = values(&s);
        let w = match Weights::open(tensors(&s, &d), 123, &meta(scale, blocks)) {
            Ok(w) => w,
            Err(e) => panic!("{}", e.message()),
        };
        assert_eq!(w.total_bytes(), 123);
        assert_eq!(w.config.first_in_ch(), if scale == 2 { 12 } else { 3 });
        assert!(w.are_filled());
        let m = match Model::load(&w) {
            Ok(m) => m,
            Err(e) => panic!("{}", e.message()),
        };
        assert_eq!(m.blocks.len(), blocks);
        assert_eq!(m.geom.scale, scale);
        let at = |name: &str| s.iter().position(|(n, _)| n == name).unwrap();
        assert_eq!(m.conv_first.w, d[at("conv_first.weight")]);
        assert_eq!(m.conv_last.bias, d[at("conv_last.bias")]);
        if blocks > 0 {
            let c = &m.blocks[blocks - 1].rdbs[2].convs[3];
            let name = format!("body.{}.rdb3.conv4", blocks - 1);
            assert_eq!(c.w, d[at(&format!("{name}.weight"))]);
            assert_eq!(c.bias, d[at(&format!("{name}.bias"))]);
            assert_eq!(c.c_out, NG);
        }
        let total: usize = d.iter().map(|v| v.len()).sum();
        assert_eq!(m.weight_bytes(), 4 * total);
        // The file's order is the graph's, so the packed buffer counts up.
        let lay = Layout::new(&m);
        assert_eq!(lay.floats, total);
        let host = pack(&m, &lay, -1.0);
        assert_eq!(host, (0..total).map(|i| i as f32).collect::<Vec<f32>>());
    }
}

#[test]
fn layout_addresses_every_convolution() {
    let s = shapes(4, 1);
    let d = values(&s);
    let w = Weights::open(tensors(&s, &d), 0, &meta(4, 1)).ok().unwrap();
    let m = Model::load(&w).ok().unwrap();
    let lay = Layout::new(&m);
    let first = NF * 3 * 9;
    assert_eq!(lay.at(0), ConvLoc { w: 0, b: first });
    assert_eq!(lay.at(1), ConvLoc { w: first + NF, b: first + NF + NG * NF * 9 });
    assert_eq!(lay.at(1), lay.blocks[0][0][0]);
    assert_eq!(lay.at(15), lay.blocks[0][2][4]);
    assert_eq!(lay.at(16), lay.conv_body);
    assert_eq!(lay.at(17), lay.conv_up1);
    assert_eq!(lay.at(18), lay.conv_up2);
    assert_eq!(lay.at(19), lay.conv_hr);
    assert_eq!(lay.at(20), lay.conv_last);
    assert_eq!(lay.conv_last.b + 3, lay.floats);
    for l in 0..20 {
        assert!(lay.at(l).b <= lay.at(l + 1).w);
    }
}

#[test]
fn missing_metadata_is_named_in_order() {
    let text = |k: &str| {
        format!("checkpoint metadata is missing `{k}` (not a converted Real-ESRGAN file?)")
    };
    let full = meta(4, 0);
    let none = Metadata {
        scale: None,
        num_feat: None,
        num_block: None,
        num_grow_ch: None,
        in_ch: None,
        out_ch: None,
    };
    assert_eq!(open_err(Vec::new(), &none), text("scale"));
    assert_eq!(open_err(Vec::new(), &Metadata { scale: Some(4), ..none }), text("num_feat"));
    assert_eq!(open_err(Vec::new(), &Metadata { num_block: None, ..full }), text("num_block"));
    assert_eq!(open_err(Vec::new(), &Metadata { num_grow_ch: None, ..full }), text("num_grow_ch"));
    assert_eq!(open_err(Vec::new(), &Metadata { in_ch: None, ..full }), text("in_ch"));
    assert_eq!(open_err(Vec::new(), &Metadata { out_ch: None, ..full }), text("out_ch"));
}

#[test]
fn first_wrong_shape_is_named() {
    let s = shapes(4, 1);
    let d = values(&s);
    let m = meta(4, 1);
    let mut bad = s.clone();
    bad[0].1 = vec![NF, 12, 3, 3];
    assert_eq!(
        open_err(tensors(&bad, &d), &m),
        "conv_first.weight: shape [4, 12, 3, 3], expected [4, 3, 3, 3]"
    );
    let mut bad = s.clone();
    bad[1].1 = vec![];
    assert_eq!(open_err(tensors(&bad, &d), &m), "conv_first.bias: shape [], expected [4]");
    // Two are wrong: the earlier in the graph is reported, wherever it stands.
    let mut bad = s.clone();
    let k = bad.iter().position(|(n, _)| n == "body.0.rdb2.conv3.weight").unwrap();
    bad[k].1 = vec![2, 8, 3];
    bad.last_mut().unwrap().1 = vec![9];
    let k = bad.iter().position(|(n, _)| n == "conv_last.weight").unwrap();
    bad[k].1 = vec![1];
    bad.reverse();
    let mut rd = d.clone();
    rd.reverse();
    assert_eq!(
        open_err(tensors(&bad, &rd), &m),
        "body.0.rdb2.conv3.weight: shape [2, 8, 3], expected [2, 8, 3, 3]"
    );
    // Every bias is checked, behind its convolution's weight.
    let mut bad = s.clone();
    let k = bad.iter().position(|(n, _)| n == "conv_body.bias").unwrap();
    bad[k].1 = vec![NF + 1];
    assert_eq!(open_err(tensors(&bad, &d), &m), "conv_body.bias: shape [5], expected [4]");
    let k = bad.iter().position(|(n, _)| n == "body.0.rdb1.conv2.bias").unwrap();
    bad[k].1 = vec![1, 2];
    assert_eq!(
        open_err(tensors(&bad, &d), &m),
        "body.0.rdb1.conv2.bias: shape [1, 2], expected [2]"
    );
    let k = bad.iter().position(|(n, _)| n == "body.0.rdb1.conv2.weight").unwrap();
    bad[k].1 = vec![1];
    assert_eq!(
        open_err(tensors(&bad, &d), &m),
        "body.0.rdb1.conv2.weight: shape [1], expected [2, 6, 3, 3]"
    );
}

#[test]
fn missing_tensor_is_named() {
    let s = shapes(4, 1);
    let d = values(&s);
    let t: Vec<Tensor<'_, f32>> =
        tensors(&s, &d).into_iter().filter(|t| t.name != "conv_up2.weight").collect();
    match Weights::open(t, 0, &meta(4, 1)) {
        Err(LoadError::NoTensor(n)) => assert_eq!(n, "conv_up2.weight"),
        _ => panic!("wrong outcome"),
    }
    let w = Weights::open(tensors(&s, &d), 0, &meta(4, 1)).ok().unwrap();
    assert_eq!(w.shape("conv_last.weight").ok().unwrap(), &[3usize, NF, 3, 3][..]);
    assert_eq!(w.get("conv_last.bias").ok().unwrap().len(), 3);
    assert_eq!(w.get("nothing").err().unwrap().message(), "no tensor nothing");
    assert!(w.shape("nothing").is_err());
}

#[test]
fn loading_stops_at_the_first_convolution_in_loading_order() {
    let s = shapes(4, 1);
    let d = values(&s);
    let m = meta(4, 1);
    let drop = |names: &[&str]| {
        let t: Vec<Tensor<'_, f32>> =
            tensors(&s, &d).into_iter().filter(|t| !names.contains(&t.name.as_str())).collect();
        match Weights::open(t, 0, &m) {
            Err(LoadError::NoTensor(n)) => assert!(names.contains(&n.as_str())),
            _ => panic!("wrong outcome"),
        }
        let t: Vec<Tensor<'_, f32>> =
            tensors(&s, &d).into_iter().filter(|t| !names.contains(&t.name.as_str())).collect();
        let w = Weights { tensors: t, payload_bytes: 0, config: m.config().ok().unwrap() };
        assert!(w.are_filled());
        match Model::load(&w) {
            Err(LoadError::NoTensor(n)) => n,
            _ => panic!("wrong outcome"),
        }
    };
    assert_eq!(drop(&["conv_up1.bias", "conv_hr.bias"]), "conv_up1.bias");
    assert_eq!(drop(&["conv_up1.bias", "body.0.rdb3.conv5.bias"]), "body.0.rdb3.conv5.bias");
    // A tensor of another type.
    let mut t = tensors(&s, &d);
    let k = t.iter().position(|t| t.name == "conv_body.weight").unwrap();
    t[k].data = None;
    let w = Weights::open(t, 0, &m).ok().unwrap();
    match Model::load(&w) {
        Err(LoadError::NotF32(n)) => assert_eq!(n, "conv_body.weight"),
        _ => panic!("wrong outcome"),
    }
}

#[test]
fn weight_of_another_rank_is_no_convolution() {
    let d = vec![vec![0f32; 12], vec![0f32; 1]];
    let w = Weights {
        tensors: vec![
            Tensor { name: "a.weight".to_string(), shape: vec![1, 12], data: Some(&d[0][..]) },
            Tensor { name: "a.bias".to_string(), shape: vec![1], data: Some(&d[1][..]) },
        ],
        payload_bytes: 0,
        config: Config {
            scale: 4,
            num_feat: 1,
            num_block: 0,
            num_grow_ch: 1,
            in_ch: 3,
            out_ch: 3,
        },
    };
    assert!(w.is_filled("a"));
    let e = realesrgan::conv::Conv::load(&w, "a").err().unwrap();
    assert_eq!(e.message(), "a.weight: expected a [c_out, c_in, 3, 3] weight, got [1, 12]");
    assert_eq!(LoadError::NotF32("x".to_string()).message(), "x: not f32");
}

#[test]
fn values_that_do_not_fill_a_shape_are_told() {
    let s = shapes(4, 1);
    let mut d = values(&s);
    let k = s.iter().position(|(n, _)| n == "body.0.rdb1.conv2.bias").unwrap();
    d[k].push(0.0);
    let w = Weights::open(tensors(&s, &d), 0, &meta(4, 1)).ok().unwrap();
    assert!(!w.are_filled());
    assert!(!w.is_filled("body.0.rdb1.conv2"));
    assert!(w.is_filled("body.0.rdb1.conv1"));
}

#[test]
fn uncountable_channels_are_told() {
    let c = Config {
        scale: 2,
        num_feat: 4,
        num_block: 1,
        num_grow_ch: 2,
        in_ch: usize::MAX / 2,
        out_ch: 3,
    };
    assert!(!c.is_countable());
    assert!(Config { in_ch: 3, ..c }.is_countable());
    assert!(!Config { in_ch: 3, num_grow_ch: usize::MAX, ..c }.is_countable());
    assert!(!Config { in_ch: 3, num_feat: usize::MAX, ..c }.is_countable());
}

#[test]
fn names_and_numbers_are_written_in_decimal() {
    assert_eq!(dense_text(22, 2, 4), "body.22.rdb3.conv5");
    assert_eq!(dense_text(0, 0, 0), "body.0.rdb1.conv1");
    let mut s = String::new();
    push_decimal(&mut s, 0);
    push_decimal(&mut s, 1234567890);
    push_decimal(&mut s, u64::MAX);
    assert_eq!(s, "0123456789018446744073709551615");
    let mut s = "x".to_string();
    push_list(&mut s, &[1, 20, 300]);
    push_list(&mut s, &[]);
    assert_eq!(s, "x[1, 20, 300][]");
    assert!(same_text("wg", "wg"));
    assert!(!same_text("wg", "wgx"));
}
