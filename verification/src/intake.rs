//! Checkpoints, spelled out: what is looked at, in which order, and what is told of it.

use vstd::prelude::*;

use crate::binding::constants_are_the_metadata;
use crate::conv::Conv;
use crate::load::binds;
use crate::model::dense_layer;
use crate::model::lemma_dense_number;
use crate::model::Model;
use crate::text::decimal;
use crate::weights::layer_name;
use crate::weights::Config;
use crate::weights::Fault;
use crate::weights::LoadError;
use crate::weights::Metadata;
use crate::weights::Tensor;
use crate::weights::Weights;

verus! {

/// The name of convolution `k` of dense block `r` of block `b`.
pub open spec fn block_name(b: int, r: int, k: int) -> Seq<char> {
    "body."@ + decimal(b as nat) + ".rdb"@ + decimal((r + 1) as nat) + ".conv"@ + decimal(
        (k + 1) as nat,
    )
}

/// The tensors are checked in the order of the graph, each convolution's weight before
/// its bias.
pub proof fn tensors_are_checked_in_order<'a, T>(w: &Weights<'a, T>, b: int, r: int, k: int)
    requires
        0 <= b < w.config.num_block,
        0 <= r < 3,
        0 <= k < 5,
    ensures
        ({
            let (l, n) = (1 + 15 * b + 5 * r + k, 15 * w.config.num_block);
            &&& w.expect_name(0) == "conv_first"@ + ".weight"@
            &&& w.expect_name(1) == "conv_first"@ + ".bias"@
            &&& w.expect_name(2 * l) == block_name(b, r, k) + ".weight"@
            &&& w.expect_name(2 * l + 1) == block_name(b, r, k) + ".bias"@
            &&& w.expect_name(2 * n + 2) == "conv_body"@ + ".weight"@
            &&& w.expect_name(2 * n + 3) == "conv_body"@ + ".bias"@
            &&& w.expect_name(2 * n + 4) == "conv_up1"@ + ".weight"@
            &&& w.expect_name(2 * n + 5) == "conv_up1"@ + ".bias"@
            &&& w.expect_name(2 * n + 6) == "conv_up2"@ + ".weight"@
            &&& w.expect_name(2 * n + 7) == "conv_up2"@ + ".bias"@
            &&& w.expect_name(2 * n + 8) == "conv_hr"@ + ".weight"@
            &&& w.expect_name(2 * n + 9) == "conv_hr"@ + ".bias"@
            &&& w.expect_name(2 * n + 10) == "conv_last"@ + ".weight"@
            &&& w.expect_name(2 * n + 11) == "conv_last"@ + ".bias"@
        }),
{
    lemma_dense_number(b, r, k);
    assert(dense_layer(b, r, k) == 1 + 15 * b + 5 * r + k);
}

/// The first tensor that fails is told: the number of it is returned, all before it have
/// their shapes, and it is missing or has another.
pub proof fn first_failing_tensor_is_told<'a, T>(w: &Weights<'a, T>, f: Fault) -> (i: int)
    requires
        w.first_fault(f),
    ensures
        0 <= i < 2 * (6 + 15 * w.config.num_block),
        forall|j: int|
            0 <= j < i ==> {
                &&& w.tensor(#[trigger] w.expect_name(j)) is Some
                &&& w.tensor(w.expect_name(j))->0.shape@ == w.expect_shape(j)
            },
        match w.tensor(w.expect_name(i)) {
            None => f == Fault::NoTensor(w.expect_name(i)),
            Some(t) => t.shape@ != w.expect_shape(i) && f == Fault::Shape(
                w.expect_name(i),
                t.shape@,
                w.expect_shape(i),
            ),
        },
{
    let i = choose|i: int|
        {
            &&& 0 <= i < 2 * w.config.geom().layers()
            &&& w.sound_to(i)
            &&& #[trigger] w.expect_fault(i) == Some(f)
        };
    assert forall|j: int| 0 <= j < i implies {
        &&& w.tensor(#[trigger] w.expect_name(j)) is Some
        &&& w.tensor(w.expect_name(j))->0.shape@ == w.expect_shape(j)
    } by {
        assert(w.expect_fault(j) is None);
    }
    i
}

/// The shapes that are asked for: a weight's are its channels and three by three taps, and
/// a bias has one value to an output channel.
pub proof fn shapes_that_are_asked_for<'a, T>(w: &Weights<'a, T>, b: int, r: int, k: int)
    requires
        0 <= b < w.config.num_block,
        0 <= r < 3,
        0 <= k < 5,
        w.config.num_feat + 4 * w.config.num_grow_ch <= usize::MAX,
        4 * w.config.in_ch <= usize::MAX,
    ensures
        ({
            let c = w.config;
            let (l, n) = (1 + 15 * b + 5 * r + k, 15 * c.num_block);
            let (nf, ng) = (c.num_feat, c.num_grow_ch);
            let first = w.expect_shape(0);
            let s = w.expect_shape(2 * l);
            let last = w.expect_shape(2 * n + 10);
            &&& first.len() == 4 && first[0] == nf && first[2] == 3 && first[3] == 3
            &&& first[1] == if c.scale == 2 {
                4 * c.in_ch
            } else {
                c.in_ch as int
            }
            &&& w.expect_shape(1) == seq![nf]
            &&& s.len() == 4 && s[1] == nf + k * ng && s[2] == 3 && s[3] == 3
            &&& s[0] == if k == 4 {
                nf
            } else {
                ng
            }
            &&& w.expect_shape(2 * l + 1) == seq![s[0]]
            &&& w.expect_shape(2 * n + 2) == seq![nf, nf, 3, 3]
            &&& w.expect_shape(2 * n + 3) == seq![nf]
            &&& w.expect_shape(2 * n + 4) == seq![nf, nf, 3, 3]
            &&& w.expect_shape(2 * n + 5) == seq![nf]
            &&& w.expect_shape(2 * n + 6) == seq![nf, nf, 3, 3]
            &&& w.expect_shape(2 * n + 7) == seq![nf]
            &&& w.expect_shape(2 * n + 8) == seq![nf, nf, 3, 3]
            &&& w.expect_shape(2 * n + 9) == seq![nf]
            &&& last.len() == 4 && last[0] == c.out_ch && last[1] == nf && last[2] == 3 && last[3]
                == 3
            &&& w.expect_shape(2 * n + 11) == seq![c.out_ch]
        }),
{
    lemma_dense_number(b, r, k);
    assert(dense_layer(b, r, k) == 1 + 15 * b + 5 * r + k);
    assert(0 <= k * w.config.num_grow_ch <= 4 * w.config.num_grow_ch) by (nonlinear_arith)
        requires
            0 <= k < 5,
            0 <= w.config.num_grow_ch,
    ;
}

/// A checkpoint opens where all six constants are there and every tensor has its shape;
/// the first missing constant is told before any tensor.
pub proof fn checkpoints_open_so<'a, T>(
    tensors: Vec<Tensor<'a, T>>,
    bytes: usize,
    m: &Metadata,
    r: Result<Weights<'a, T>, LoadError>,
)
    requires
        call_ensures(Weights::<'a, T>::open, (tensors, bytes, m), r),
    ensures
        r matches Ok(w) ==> {
            &&& w.tensors == tensors
            &&& w.payload_bytes == bytes
            &&& m.scale == Some(w.config.scale)
            &&& m.num_feat == Some(w.config.num_feat)
            &&& m.num_block == Some(w.config.num_block)
            &&& m.num_grow_ch == Some(w.config.num_grow_ch)
            &&& m.in_ch == Some(w.config.in_ch)
            &&& m.out_ch == Some(w.config.out_ch)
            &&& w.sound()
        },
        m.scale is None ==> (r matches Err(LoadError::NoMetadata(k)) && k@ == "scale"@),
        m.scale is Some && m.num_feat is None ==> (r matches Err(LoadError::NoMetadata(k)) && k@
            == "num_feat"@),
        m.scale is Some && m.num_feat is Some && m.num_block is None ==> (r matches Err(
            LoadError::NoMetadata(k),
        ) && k@ == "num_block"@),
        m.scale is Some && m.num_feat is Some && m.num_block is Some && m.num_grow_ch is None ==> (
        r matches Err(LoadError::NoMetadata(k)) && k@ == "num_grow_ch"@),
        m.scale is Some && m.num_feat is Some && m.num_block is Some && m.num_grow_ch is Some
            && m.in_ch is None ==> (r matches Err(LoadError::NoMetadata(k)) && k@ == "in_ch"@),
        m.scale is Some && m.num_feat is Some && m.num_block is Some && m.num_grow_ch is Some
            && m.in_ch is Some && m.out_ch is None ==> (r matches Err(LoadError::NoMetadata(k))
            && k@ == "out_ch"@),
        m.scale is Some && m.num_feat is Some && m.num_block is Some && m.num_grow_ch is Some
            && m.in_ch is Some && m.out_ch is Some ==> {
            let w = Weights {
                tensors,
                payload_bytes: bytes,
                config: Config {
                    scale: m.scale->0,
                    num_feat: m.num_feat->0,
                    num_block: m.num_block->0,
                    num_grow_ch: m.num_grow_ch->0,
                    in_ch: m.in_ch->0,
                    out_ch: m.out_ch->0,
                },
            };
            &&& r is Ok <==> w.sound()
            &&& r matches Err(e) ==> w.first_fault(e@)
        },
{
    constants_are_the_metadata(m);
}

/// What a tensor's shape and values are asked for by its name.
pub proof fn tensors_are_read_by_name<'a, T>(
    w: &Weights<'a, T>,
    name: &str,
    shape: Result<&[usize], LoadError>,
    data: Result<&'a [T], LoadError>,
)
    requires
        call_ensures(Weights::<'a, T>::shape, (w, name), shape),
        call_ensures(Weights::<'a, T>::get, (w, name), data),
    ensures
        match w.tensor(name@) {
            None => {
                &&& shape matches Err(LoadError::NoTensor(n)) && n@ == name@
                &&& data matches Err(LoadError::NoTensor(n)) && n@ == name@
            },
            Some(t) => {
                &&& shape matches Ok(s) && s@ == t.shape@
                &&& t.data is None ==> (data matches Err(LoadError::NotF32(n)) && n@ == name@)
                &&& t.data is Some ==> (data matches Ok(d) && d == t.data->0)
            },
        },
{
}

/// The convolution of this name can be loaded: its weight has three by three taps and
/// values, and its bias has values.
pub open spec fn loadable<'a, T>(w: &Weights<'a, T>, name: Seq<char>) -> bool {
    &&& w.tensor(name + ".weight"@) matches Some(t) && t.shape@.len() == 4 && t.shape@[2] == 3
        && t.shape@[3] == 3 && t.data is Some
    &&& w.tensor(name + ".bias"@) matches Some(t) && t.data is Some
}

/// Loading a convolution looks at its weight, its weight's shape, its weight's values and
/// its bias, in this order, and tells the first that is wrong.
pub proof fn convolutions_load_so<'a, T: Copy>(
    w: &Weights<'a, T>,
    name: &str,
    r: Result<Conv<T>, LoadError>,
)
    requires
        call_ensures(Conv::<T>::load, (w, name), r),
    ensures
        ({
            let (wk, bk) = (name@ + ".weight"@, name@ + ".bias"@);
            match w.tensor(wk) {
                None => r matches Err(LoadError::NoTensor(n)) && n@ == wk,
                Some(t) => if t.shape@.len() != 4 || t.shape@[2] != 3 || t.shape@[3] != 3 {
                    r matches Err(LoadError::NotConv(n, s)) && n@ == wk && s@ == t.shape@
                } else if t.data is None {
                    r matches Err(LoadError::NotF32(n)) && n@ == wk
                } else {
                    match w.tensor(bk) {
                        None => r matches Err(LoadError::NoTensor(n)) && n@ == bk,
                        Some(u) => if u.data is None {
                            r matches Err(LoadError::NotF32(n)) && n@ == bk
                        } else {
                            r matches Ok(c) && c.w@ == t.data->0@ && c.bias@ == u.data->0@
                                && c.c_out == t.shape@[0]
                        },
                    }
                },
            }
        }),
{
}

/// The convolutions are loaded block by block, and then the six that stand alone.
pub proof fn convolutions_are_loaded_in_order<'a, T>(w: &Weights<'a, T>, b: int, r: int, k: int)
    requires
        0 <= b < w.config.num_block,
        0 <= r < 3,
        0 <= k < 5,
    ensures
        ({
            let (nb, n) = (w.config.num_block as int, 15 * w.config.num_block);
            &&& layer_name(nb, w.load_layer(15 * b + 5 * r + k)) == block_name(b, r, k)
            &&& layer_name(nb, w.load_layer(n)) == "conv_first"@
            &&& layer_name(nb, w.load_layer(n + 1)) == "conv_body"@
            &&& layer_name(nb, w.load_layer(n + 2)) == "conv_up1"@
            &&& layer_name(nb, w.load_layer(n + 3)) == "conv_up2"@
            &&& layer_name(nb, w.load_layer(n + 4)) == "conv_hr"@
            &&& layer_name(nb, w.load_layer(n + 5)) == "conv_last"@
        }),
{
    lemma_dense_number(b, r, k);
    assert(dense_layer(b, r, k) == 1 + 15 * b + 5 * r + k);
}

/// Every convolution of the network can be loaded.
pub open spec fn all_loadable<'a, T>(w: &Weights<'a, T>) -> bool {
    &&& forall|b: int, i: int, k: int|
        0 <= b < w.config.num_block && 0 <= i < 3 && 0 <= k < 5 ==> loadable(
            w,
            #[trigger] block_name(b, i, k),
        )
    &&& loadable(w, "conv_first"@)
    &&& loadable(w, "conv_body"@)
    &&& loadable(w, "conv_up1"@)
    &&& loadable(w, "conv_up2"@)
    &&& loadable(w, "conv_hr"@)
    &&& loadable(w, "conv_last"@)
}

/// Loading finds no fault exactly where a convolution can be loaded.
proof fn lemma_loadable<'a, T>(w: &Weights<'a, T>, name: Seq<char>)
    ensures
        w.conv_fault(name) is None <==> loadable(w, name),
{
}

proof fn lemma_all_load<'a, T>(w: &Weights<'a, T>)
    requires
        w.loads_to(15 * w.config.num_block + 6),
    ensures
        all_loadable(w),
{
    let n = 15 * w.config.num_block;
    let nb = w.config.num_block as int;
    assert forall|b: int, i: int, k: int|
        0 <= b < w.config.num_block && 0 <= i < 3 && 0 <= k < 5 implies loadable(
        w,
        #[trigger] block_name(b, i, k),
    ) by {
        convolutions_are_loaded_in_order(w, b, i, k);
        assert(w.load_fault(15 * b + 5 * i + k) is None);
        lemma_loadable(w, block_name(b, i, k));
    }
    assert(w.load_fault(n) is None && w.load_fault(n + 1) is None);
    assert(w.load_fault(n + 2) is None && w.load_fault(n + 3) is None);
    assert(w.load_fault(n + 4) is None && w.load_fault(n + 5) is None);
    lemma_loadable(w, "conv_first"@);
    lemma_loadable(w, "conv_body"@);
    lemma_loadable(w, "conv_up1"@);
    lemma_loadable(w, "conv_up2"@);
    lemma_loadable(w, "conv_hr"@);
    lemma_loadable(w, "conv_last"@);
}

proof fn lemma_one_fails<'a, T>(w: &Weights<'a, T>, j: int)
    requires
        0 <= j < 15 * w.config.num_block + 6,
        !loadable(w, layer_name(w.config.num_block as int, w.load_layer(j))),
    ensures
        !all_loadable(w),
{
    if j < 15 * w.config.num_block {
        let (b, i, k) = (j / 15, (j % 15) / 5, j % 5);
        convolutions_are_loaded_in_order(w, b, i, k);
        assert(15 * b + 5 * i + k == j);
        assert(!loadable(w, block_name(b, i, k)));
    }
}

/// A model loads where each of its convolutions can be loaded; else the first in the order
/// of loading that cannot be is told, whose number is returned.
pub proof fn models_load_so<'a, T: Copy>(w: &Weights<'a, T>, r: Result<Model<T>, LoadError>) -> (j:
    int)
    requires
        call_ensures(Model::<T>::load, (w,), r),
    ensures
        r is Ok <==> all_loadable(w),
        r matches Ok(m) ==> binds(w, &m),
        r matches Err(e) ==> {
            let nb = w.config.num_block as int;
            &&& 0 <= j < 15 * nb + 6
            &&& forall|i: int|
                0 <= i < j ==> loadable(w, #[trigger] layer_name(nb, w.load_layer(i)))
            &&& !loadable(w, layer_name(nb, w.load_layer(j)))
            &&& w.conv_fault(layer_name(nb, w.load_layer(j))) == Some(e@)
        },
{
    if r is Ok {
        lemma_all_load(w);
        0
    } else {
        let nb = w.config.num_block as int;
        let f = r->Err_0@;
        let j = choose|j: int|
            {
                &&& 0 <= j < w.config.geom().layers()
                &&& w.loads_to(j)
                &&& #[trigger] w.load_fault(j) == Some(f)
            };
        assert forall|i: int| 0 <= i < j implies loadable(
            w,
            #[trigger] layer_name(nb, w.load_layer(i)),
        ) by {
            assert(w.load_fault(i) is None);
            lemma_loadable(w, layer_name(nb, w.load_layer(i)));
        }
        lemma_loadable(w, layer_name(nb, w.load_layer(j)));
        lemma_one_fails(w, j);
        j
    }
}

/// The constants can be counted where the first convolution's channels and the dense
/// workspace's can be.
pub proof fn constants_that_can_be_counted(c: &Config, r: bool)
    requires
        call_ensures(Config::is_countable, (c,), r),
    ensures
        r <==> c.num_feat + 4 * c.num_grow_ch <= usize::MAX && (c.scale == 2 ==> 4 * c.in_ch
            <= usize::MAX),
{
}

/// A convolution's values fill its shape: nine for each pair of channels, and one bias to
/// an output channel. Of one that cannot be loaded nothing is asked.
pub proof fn values_fill_the_shape<'a, T: Copy>(w: &Weights<'a, T>, name: &str, r: bool)
    requires
        call_ensures(Weights::<'a, T>::is_filled, (w, name), r),
    ensures
        !loadable(w, name@) ==> r,
        loadable(w, name@) ==> {
            let t = w.tensor(name@ + ".weight"@)->0;
            let u = w.tensor(name@ + ".bias"@)->0;
            r <==> t.data->0@.len() == 9 * (t.shape@[0] * t.shape@[1]) && u.data->0@.len()
                == t.shape@[0]
        },
{
    lemma_loadable(w, name@);
}

/// The values of the convolution of this name fill its shape, if it can be loaded.
pub open spec fn fills<'a, T>(w: &Weights<'a, T>, name: Seq<char>) -> bool {
    loadable(w, name) ==> {
        let t = w.tensor(name + ".weight"@)->0;
        let u = w.tensor(name + ".bias"@)->0;
        t.data->0@.len() == 9 * (t.shape@[0] * t.shape@[1]) && u.data->0@.len() == t.shape@[0]
    }
}

proof fn lemma_fills<'a, T>(w: &Weights<'a, T>, name: Seq<char>)
    ensures
        w.filled(name) <==> fills(w, name),
{
    lemma_loadable(w, name);
}

/// A checkpoint's values fill the shapes where those of every convolution do.
pub proof fn values_fill_every_shape<'a, T: Copy>(w: &Weights<'a, T>, r: bool)
    requires
        call_ensures(Weights::<'a, T>::are_filled, (w,), r),
    ensures
        r <==> {
            &&& forall|b: int, i: int, k: int|
                0 <= b < w.config.num_block && 0 <= i < 3 && 0 <= k < 5 ==> fills(
                    w,
                    #[trigger] block_name(b, i, k),
                )
            &&& fills(w, "conv_first"@)
            &&& fills(w, "conv_body"@)
            &&& fills(w, "conv_up1"@)
            &&& fills(w, "conv_up2"@)
            &&& fills(w, "conv_hr"@)
            &&& fills(w, "conv_last"@)
        },
{
    let nb = w.config.num_block as int;
    let n = 15 * nb;
    if r {
        assert forall|b: int, i: int, k: int|
            0 <= b < w.config.num_block && 0 <= i < 3 && 0 <= k < 5 implies fills(
            w,
            #[trigger] block_name(b, i, k),
        ) by {
            lemma_dense_number(b, i, k);
            assert(w.filled(layer_name(nb, dense_layer(b, i, k))));
            lemma_fills(w, block_name(b, i, k));
        }
        assert(w.filled(layer_name(nb, 0)) && w.filled(layer_name(nb, n + 1)));
        assert(w.filled(layer_name(nb, n + 2)) && w.filled(layer_name(nb, n + 3)));
        assert(w.filled(layer_name(nb, n + 4)) && w.filled(layer_name(nb, n + 5)));
    } else {
        let l = choose|l: int|
            0 <= l < w.config.geom().layers() && !w.filled(#[trigger] layer_name(nb, l));
        if 0 < l <= n {
            let (b, i, k) = ((l - 1) / 15, ((l - 1) % 15) / 5, (l - 1) % 5);
            assert(dense_layer(b, i, k) == l);
            lemma_fills(w, block_name(b, i, k));
            assert(!fills(w, block_name(b, i, k)));
        }
    }
    lemma_fills(w, "conv_first"@);
    lemma_fills(w, "conv_body"@);
    lemma_fills(w, "conv_up1"@);
    lemma_fills(w, "conv_up2"@);
    lemma_fills(w, "conv_hr"@);
    lemma_fills(w, "conv_last"@);
}

} // verus!
