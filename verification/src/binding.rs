//! A checkpoint, spelled out: which tensor is which convolution, and what is asked of
//! each.

use vstd::prelude::*;

use crate::conv::Conv;
use crate::layout::Layout;
use crate::load::binds;
use crate::model::dense_layer;
use crate::model::lemma_dense_number;
use crate::model::Geometry;
use crate::model::Model;
use crate::text::bracketed;
use crate::text::decimal;
use crate::text::digit;
use crate::text::listed;
use crate::weights::layer_name;
use crate::weights::seek;
use crate::weights::weight_shape;
use crate::weights::Config;
use crate::weights::Fault;
use crate::weights::LoadError;
use crate::weights::Metadata;
use crate::weights::Tensor;
use crate::weights::Weights;

verus! {

/// A number in decimal reads back: its digits, the first being the most significant,
/// have its value, and the first is a zero only where it is the only one.
pub proof fn decimal_reads_back(n: nat)
    ensures
        0 < decimal(n).len(),
        forall|i: int| 0 <= i < decimal(n).len() ==> '0' <= #[trigger] decimal(n)[i] <= '9',
        decimal(n)[0] == '0' ==> decimal(n).len() == 1,
        decimal(n).fold_left(0int, |v: int, c: char| 10 * v + (c as int - '0' as int)) == n,
    decreases n,
{
    let f = |v: int, c: char| 10 * v + (c as int - '0' as int);
    let d = decimal(n);
    reveal_with_fuel(Seq::fold_left, 2);
    if n < 10 {
        assert(d.drop_last() =~= Seq::<char>::empty());
        assert(d.last() == digit(n));
    } else {
        let m = n / 10;
        decimal_reads_back(m);
        assert(d == decimal(m).push(digit(n % 10)));
        assert(d.drop_last() =~= decimal(m));
        assert(d.last() == digit(n % 10));
        assert(d.fold_left(0int, f) == f(decimal(m).fold_left(0int, f), digit(n % 10)));
        assert forall|i: int| 0 <= i < d.len() implies '0' <= #[trigger] d[i] <= '9' by {
            if i < decimal(m).len() {
                assert(d[i] == decimal(m)[i]);
            }
        }
        if decimal(m)[0] == '0' {
            assert(decimal(m).fold_left(0int, f) == f(
                decimal(m).drop_last().fold_left(0int, f),
                decimal(m).last(),
            ));
            assert(decimal(m).drop_last() =~= Seq::<char>::empty());
        }
        assert(d[0] == decimal(m)[0]);
    }
}

/// A list of numbers is written with brackets around it and commas and blanks between
/// the numbers: nothing for none, and one number more at the end for one number more.
pub proof fn lists_are_written_out(v: Seq<usize>, n: usize)
    ensures
        bracketed(Seq::<usize>::empty()) == "["@ + "]"@,
        bracketed(seq![n]) == "["@ + decimal(n as nat) + "]"@,
        0 < v.len() ==> listed(v.push(n)) == listed(v) + ", "@ + decimal(n as nat),
        bracketed(v) == "["@ + listed(v) + "]"@,
{
    assert("["@ + Seq::<char>::empty() =~= "["@);
    assert(v.push(n).drop_last() =~= v);
}

/// The messages of a checkpoint's errors.
pub proof fn fault_texts(e: LoadError)
    ensures
        e@.text() == match e {
            LoadError::NoMetadata(k) => "checkpoint metadata is missing `"@ + k@
                + "` (not a converted Real-ESRGAN file?)"@,
            LoadError::NoTensor(n) => "no tensor "@ + n@,
            LoadError::NotF32(n) => n@ + ": not f32"@,
            LoadError::Shape(n, got, want) => n@ + ": shape "@ + bracketed(got@) + ", expected "@
                + bracketed(want@),
            LoadError::NotConv(n, got) => n@ + ": expected a [c_out, c_in, 3, 3] weight, got "@
                + bracketed(got@),
        },
{
}

/// The metadata give the constants: all six are needed, each is its own, and the first
/// that is missing is told.
pub proof fn constants_are_the_metadata(m: &Metadata)
    ensures
        m.missing() is None <==> m.scale is Some && m.num_feat is Some && m.num_block is Some
            && m.num_grow_ch is Some && m.in_ch is Some && m.out_ch is Some,
        m.missing() is None ==> {
            &&& m.scale == Some(m.constants().scale)
            &&& m.num_feat == Some(m.constants().num_feat)
            &&& m.num_block == Some(m.constants().num_block)
            &&& m.num_grow_ch == Some(m.constants().num_grow_ch)
            &&& m.in_ch == Some(m.constants().in_ch)
            &&& m.out_ch == Some(m.constants().out_ch)
        },
        m.scale is None ==> m.missing() == Some("scale"@),
        m.scale is Some && m.num_feat is None ==> m.missing() == Some("num_feat"@),
        m.scale is Some && m.num_feat is Some && m.num_block is None ==> m.missing() == Some(
            "num_block"@,
        ),
        m.scale is Some && m.num_feat is Some && m.num_block is Some && m.num_grow_ch is None
            ==> m.missing() == Some("num_grow_ch"@),
        m.scale is Some && m.num_feat is Some && m.num_block is Some && m.num_grow_ch is Some
            && m.in_ch is None ==> m.missing() == Some("in_ch"@),
        m.scale is Some && m.num_feat is Some && m.num_block is Some && m.num_grow_ch is Some
            && m.in_ch is Some && m.out_ch is None ==> m.missing() == Some("out_ch"@),
{
}

/// A tensor is found by its name, the first of that name, and none is found only where
/// none has the name.
pub proof fn tensor_is_the_first_of_its_name<'a, T>(w: &Weights<'a, T>, name: Seq<char>)
    ensures
        match w.tensor(name) {
            Some(t) => exists|i: int|
                {
                    &&& 0 <= i < w.tensors@.len()
                    &&& #[trigger] w.tensors@[i] == t
                    &&& t.name@ == name
                    &&& forall|j: int| 0 <= j < i ==> (#[trigger] w.tensors@[j]).name@ != name
                },
            None => forall|j: int|
                0 <= j < w.tensors@.len() ==> (#[trigger] w.tensors@[j]).name@ != name,
        },
{
    lemma_first(w.tensors@, name, w.tensors@.len());
}

proof fn lemma_first<'a, T>(ts: Seq<Tensor<'a, T>>, name: Seq<char>, n: nat)
    requires
        n <= ts.len(),
    ensures
        match seek(ts, name, n) {
            Some(i) => 0 <= i < n && ts[i].name@ == name && forall|j: int|
                0 <= j < i ==> (#[trigger] ts[j]).name@ != name,
            None => forall|j: int| 0 <= j < n ==> (#[trigger] ts[j]).name@ != name,
        },
    decreases n,
{
    if n > 0 {
        lemma_first(ts, name, (n - 1) as nat);
    }
}

/// The convolutions' numbers: the first, the five of each of the three dense blocks of
/// each block, and the five behind the body. The channels go with them.
pub proof fn convolutions_are_numbered<T>(m: &Model<T>, lay: &Layout, b: int, r: int, k: int)
    requires
        m.blocks@.len() == m.geom.num_block,
        lay.blocks@.len() == m.geom.num_block,
        0 <= b < m.geom.num_block,
        0 <= r < 3,
        0 <= k < 5,
    ensures
        ({
            let (g, n, l) = (m.geom, 15 * m.geom.num_block, 1 + 15 * b + 5 * r + k);
            let nf = g.num_feat as int;
            &&& g.layers() == n + 6
            &&& m.layer(0) == m.conv_first && lay.loc(0) == lay.conv_first
            &&& m.layer(l) == m.blocks@[b].rdbs@[r].convs@[k]
            &&& lay.loc(l) == lay.blocks@[b]@[r]@[k]
            &&& m.layer(n + 1) == m.conv_body && lay.loc(n + 1) == lay.conv_body
            &&& m.layer(n + 2) == m.conv_up1 && lay.loc(n + 2) == lay.conv_up1
            &&& m.layer(n + 3) == m.conv_up2 && lay.loc(n + 3) == lay.conv_up2
            &&& m.layer(n + 4) == m.conv_hr && lay.loc(n + 4) == lay.conv_hr
            &&& m.layer(n + 5) == m.conv_last && lay.loc(n + 5) == lay.conv_last
            &&& g.layer_in(0) == (if g.scale == 2 {
                g.in_ch * 4
            } else {
                g.in_ch as int
            }) && g.layer_out(0) == nf
            &&& g.layer_in(l) == nf + k * g.num_grow_ch
            &&& g.layer_out(l) == (if k == 4 {
                nf
            } else {
                g.num_grow_ch as int
            })
            &&& g.layer_in(n + 1) == nf && g.layer_out(n + 1) == nf
            &&& g.layer_in(n + 2) == nf && g.layer_out(n + 2) == nf
            &&& g.layer_in(n + 3) == nf && g.layer_out(n + 3) == nf
            &&& g.layer_in(n + 4) == nf && g.layer_out(n + 4) == nf
            &&& g.layer_in(n + 5) == nf && g.layer_out(n + 5) == g.out_ch
            &&& g.dense() == nf + 4 * g.num_grow_ch
        }),
{
    lemma_dense_number(b, r, k);
    assert(dense_layer(b, r, k) == 1 + 15 * b + 5 * r + k);
}

/// `c` has the values of the tensors of this name.
pub open spec fn bound_to<'a, T>(w: &Weights<'a, T>, name: Seq<char>, c: Conv<T>) -> bool {
    &&& w.tensor(name + ".weight"@) matches Some(t) && t.data matches Some(d) && c.w@ == d@
        && c.c_out == t.shape@[0] && d@.len() == t.shape@[0] * t.shape@[1] * 9
    &&& w.tensor(name + ".bias"@) matches Some(t) && t.data matches Some(d) && c.bias@ == d@
}

/// A loaded model's convolutions are the checkpoint's: convolution `k` of dense block
/// `r` of block `b` is `body.b.rdb(r+1).conv(k+1)`, the numbers in decimal, and the
/// others carry their own names.
pub proof fn convolutions_come_from_their_tensors<'a, T>(
    w: &Weights<'a, T>,
    m: &Model<T>,
    b: int,
    r: int,
    k: int,
)
    requires
        binds(w, m),
    ensures
        m.geom.scale == w.config.scale,
        m.geom.num_feat == w.config.num_feat,
        m.geom.num_block == w.config.num_block,
        m.geom.num_grow_ch == w.config.num_grow_ch,
        m.geom.in_ch == w.config.in_ch,
        m.geom.out_ch == w.config.out_ch,
        m.blocks@.len() == w.config.num_block,
        0 <= b < m.blocks@.len() && 0 <= r < 3 && 0 <= k < 5 ==> bound_to(
            w,
            "body."@ + decimal(b as nat) + ".rdb"@ + decimal((r + 1) as nat) + ".conv"@ + decimal(
                (k + 1) as nat,
            ),
            m.blocks@[b].rdbs@[r].convs@[k],
        ),
        bound_to(w, "conv_first"@, m.conv_first),
        bound_to(w, "conv_body"@, m.conv_body),
        bound_to(w, "conv_up1"@, m.conv_up1),
        bound_to(w, "conv_up2"@, m.conv_up2),
        bound_to(w, "conv_hr"@, m.conv_hr),
        bound_to(w, "conv_last"@, m.conv_last),
{
    let n = 15 * w.config.num_block;
    let nb = w.config.num_block as int;
    assert(w.holds(layer_name(nb, 0), m.layer(0)));
    assert(w.holds(layer_name(nb, n + 1), m.layer(n + 1)));
    assert(w.holds(layer_name(nb, n + 2), m.layer(n + 2)));
    assert(w.holds(layer_name(nb, n + 3), m.layer(n + 3)));
    assert(w.holds(layer_name(nb, n + 4), m.layer(n + 4)));
    assert(w.holds(layer_name(nb, n + 5), m.layer(n + 5)));
    if 0 <= b < nb && 0 <= r < 3 && 0 <= k < 5 {
        lemma_dense_number(b, r, k);
        let l = dense_layer(b, r, k);
        assert(w.holds(layer_name(nb, l), m.layer(l)));
    }
}

/// The tensor of this name is there, and has this shape.
pub open spec fn has_shape<'a, T>(w: &Weights<'a, T>, name: Seq<char>, shape: Seq<usize>) -> bool {
    w.tensor(name) matches Some(t) && t.shape@ == shape
}

/// The convolution of this name has weights and biases for these channels.
pub open spec fn has_conv<'a, T>(w: &Weights<'a, T>, name: Seq<char>, co: int, ci: int) -> bool {
    has_shape(w, name + ".weight"@, seq![co as usize, ci as usize, 3, 3]) && has_shape(
        w,
        name + ".bias"@,
        seq![co as usize],
    )
}

/// Convolution `k` of dense block `r` of block `b` has its shape: the first four grow
/// the channels, and the fifth gathers them.
pub open spec fn asked_of_block<'a, T>(w: &Weights<'a, T>, b: int, r: int, k: int) -> bool {
    has_conv(
        w,
        "body."@ + decimal(b as nat) + ".rdb"@ + decimal((r + 1) as nat) + ".conv"@ + decimal(
            (k + 1) as nat,
        ),
        if k == 4 {
            w.config.num_feat as int
        } else {
            w.config.num_grow_ch as int
        },
        w.config.num_feat + k * w.config.num_grow_ch,
    )
}

/// A checkpoint is accepted exactly where every convolution of the network has the
/// shape that the constants ask for.
pub proof fn accepted_checkpoints_have_every_shape<'a, T>(w: &Weights<'a, T>)
    ensures
        w.sound() <==> {
            let c = w.config;
            let (nf, ng) = (c.num_feat as int, c.num_grow_ch as int);
            &&& has_conv(
                w,
                "conv_first"@,
                nf,
                if c.scale == 2 {
                    c.in_ch * 4
                } else {
                    c.in_ch as int
                },
            )
            &&& forall|b: int, r: int, k: int|
                0 <= b < c.num_block && 0 <= r < 3 && 0 <= k < 5 ==> #[trigger] asked_of_block(w, b, r, k)
            &&& has_conv(w, "conv_body"@, nf, nf)
            &&& has_conv(w, "conv_up1"@, nf, nf)
            &&& has_conv(w, "conv_up2"@, nf, nf)
            &&& has_conv(w, "conv_hr"@, nf, nf)
            &&& has_conv(w, "conv_last"@, c.out_ch as int, nf)
        },
{
    let c = w.config;
    let g = c.geom();
    let (nf, ng, nb) = (c.num_feat as int, c.num_grow_ch as int, c.num_block as int);
    let n = 15 * nb;
    if w.sound() {
        lemma_asked(w, 0);
        lemma_asked(w, n + 1);
        lemma_asked(w, n + 2);
        lemma_asked(w, n + 3);
        lemma_asked(w, n + 4);
        lemma_asked(w, n + 5);
        assert forall|b: int, r: int, k: int|
            0 <= b < c.num_block && 0 <= r < 3 && 0 <= k < 5 implies #[trigger] asked_of_block(w, b, r, k) by {
            lemma_dense_number(b, r, k);
            lemma_asked(w, dense_layer(b, r, k));
        }
    }
    let all = {
        &&& has_conv(
            w,
            "conv_first"@,
            nf,
            if c.scale == 2 {
                c.in_ch * 4
            } else {
                c.in_ch as int
            },
        )
        &&& forall|b: int, r: int, k: int|
            0 <= b < c.num_block && 0 <= r < 3 && 0 <= k < 5 ==> #[trigger] asked_of_block(w, b, r, k)
        &&& has_conv(w, "conv_body"@, nf, nf)
        &&& has_conv(w, "conv_up1"@, nf, nf)
        &&& has_conv(w, "conv_up2"@, nf, nf)
        &&& has_conv(w, "conv_hr"@, nf, nf)
        &&& has_conv(w, "conv_last"@, c.out_ch as int, nf)
    };
    if all {
        assert forall|i: int| 0 <= i < 2 * g.layers() implies #[trigger] w.expect_fault(i) is None by {
            let l = i / 2;
            if 0 < l <= n {
                let (b, r, k) = ((l - 1) / 15, ((l - 1) % 15) / 5, (l - 1) % 5);
                assert(dense_layer(b, r, k) == l);
                assert(asked_of_block(w, b, r, k));
            }
            assert(has_conv(w, layer_name(nb, l), g.layer_out(l), g.layer_in(l)));
            assert(weight_shape(g.layer_out(l), g.layer_in(l)) =~= seq![
                g.layer_out(l) as usize,
                g.layer_in(l) as usize,
                3,
                3,
            ]);
        }
    }
}

proof fn lemma_asked<'a, T>(w: &Weights<'a, T>, l: int)
    requires
        w.sound(),
        0 <= l < w.config.geom().layers(),
    ensures
        has_conv(
            w,
            layer_name(w.config.num_block as int, l),
            w.config.geom().layer_out(l),
            w.config.geom().layer_in(l),
        ),
{
    let g = w.config.geom();
    assert(w.expect_fault(2 * l) is None);
    assert(w.expect_fault(2 * l + 1) is None);
    assert((2 * l) / 2 == l && (2 * l + 1) / 2 == l);
    assert(weight_shape(g.layer_out(l), g.layer_in(l)) =~= seq![
        g.layer_out(l) as usize,
        g.layer_in(l) as usize,
        3,
        3,
    ]);
}

/// What a checkpoint is refused for is so: the tensor that is named is missing, or has
/// the shape that is told, which is not the one asked for.
pub proof fn faults_are_real<'a, T>(w: &Weights<'a, T>, f: Fault)
    requires
        w.first_fault(f),
    ensures
        match f {
            Fault::NoTensor(n) => w.tensor(n) is None,
            Fault::Shape(n, got, want) => w.tensor(n) matches Some(t) && t.shape@ == got && got
                != want,
            _ => false,
        },
        !w.sound(),
{
    let i = choose|i: int|
        {
            &&& 0 <= i < 2 * w.config.geom().layers()
            &&& w.sound_to(i)
            &&& #[trigger] w.expect_fault(i) == Some(f)
        };
    assert(w.expect_fault(i) == Some(f));
}

/// The constants of a network are those of its configuration.
pub proof fn geometry_is_the_configuration(c: Config)
    ensures
        c.geom() == (Geometry {
            scale: c.scale,
            num_feat: c.num_feat,
            num_block: c.num_block,
            num_grow_ch: c.num_grow_ch,
            in_ch: c.in_ch,
            out_ch: c.out_ch,
        }),
{
}

} // verus!
