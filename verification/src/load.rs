//! Binding a checkpoint's tensors to the network.

use vstd::prelude::*;

use crate::conv::Conv;
use crate::model::dense_layer;
use crate::model::lemma_dense_number;
use crate::model::DenseBlock;
use crate::model::Model;
use crate::model::Rrdb;
use crate::weights::dense_text;
use crate::weights::keyed;
use crate::weights::layer_name;
use crate::weights::weight_shape;
use crate::weights::Fault;
use crate::weights::LoadError;
use crate::weights::Weights;

verus! {

impl<'a, T> Weights<'a, T> {
    /// What stops the convolution of this name from being loaded.
    pub open spec fn conv_fault(&self, name: Seq<char>) -> Option<Fault> {
        let wk = name + ".weight"@;
        match self.tensor(wk) {
            None => Some(Fault::NoTensor(wk)),
            Some(t) => if t.shape@.len() != 4 || t.shape@[2] != 3 || t.shape@[3] != 3 {
                Some(Fault::NotConv(wk, t.shape@))
            } else if t.data is None {
                Some(Fault::NotF32(wk))
            } else {
                self.data_fault(name + ".bias"@)
            },
        }
    }

    /// `c` is the convolution of this name: the weight's shape gives the
    /// channels, and the values are the two tensors'.
    pub open spec fn holds(&self, name: Seq<char>, c: Conv<T>) -> bool {
        match (self.tensor(name + ".weight"@), self.tensor(name + ".bias"@)) {
            (Some(wt), Some(bt)) => {
                &&& wt.data matches Some(d) && c.w@ == d@
                &&& bt.data matches Some(d) && c.bias@ == d@
                &&& c.c_out == wt.shape@[0]
                &&& c.shaped(wt.shape@[1] as int)
            },
            _ => false,
        }
    }

    /// If the convolution of this name can be loaded, its values fill its shape.
    pub open spec fn filled(&self, name: Seq<char>) -> bool {
        self.conv_fault(name) is None ==> {
            let wt = self.tensor(name + ".weight"@)->0;
            let bt = self.tensor(name + ".bias"@)->0;
            &&& wt.data->0@.len() == wt.shape@[0] * wt.shape@[1] * 9
            &&& bt.data->0@.len() == wt.shape@[0]
        }
    }

    /// So it is of every convolution of the network.
    pub open spec fn all_filled(&self) -> bool {
        forall|l: int|
            0 <= l < self.config.geom().layers() ==> self.filled(
                #[trigger] layer_name(self.config.num_block as int, l),
            )
    }

    /// The `j`th convolution that is loaded: the blocks come first.
    pub open spec fn load_layer(&self, j: int) -> int {
        let n = 15 * self.config.num_block;
        if j < n {
            j + 1
        } else if j == n {
            0
        } else {
            j
        }
    }

    /// What stops the `j`th convolution from being loaded.
    pub open spec fn load_fault(&self, j: int) -> Option<Fault> {
        self.conv_fault(layer_name(self.config.num_block as int, self.load_layer(j)))
    }

    /// Nothing stops the first `n` of them.
    pub open spec fn loads_to(&self, n: int) -> bool {
        forall|j: int| 0 <= j < n ==> #[trigger] self.load_fault(j) is None
    }

    /// `f` is what stops the first convolution that cannot be loaded.
    pub open spec fn first_load_fault(&self, f: Fault) -> bool {
        exists|j: int|
            {
                &&& 0 <= j < self.config.geom().layers()
                &&& self.loads_to(j)
                &&& #[trigger] self.load_fault(j) == Some(f)
            }
    }
}

impl<'a, T: Copy> Weights<'a, T> {
    /// Do the values of the convolution of this name fill its shape, if it can be
    /// loaded?
    pub fn is_filled(&self, name: &str) -> (r: bool)
        ensures
            r == self.filled(name@),
    {
        let wk = keyed(name, ".weight");
        let bk = keyed(name, ".bias");
        let (c_out, c_in) = match self.shape(wk.as_str()) {
            Err(_) => {
                return true;
            },
            Ok(s) => {
                if s.len() != 4 || s[2] != 3 || s[3] != 3 {
                    return true;
                }
                (s[0], s[1])
            },
        };
        match (self.get(wk.as_str()), self.get(bk.as_str())) {
            (Ok(w), Ok(b)) => {
                let n = match c_out.checked_mul(c_in) {
                    Some(n) => n.checked_mul(9),
                    None => None,
                };
                assert(w.len() == w@.len());
                match n {
                    Some(n) => w.len() == n && b.len() == c_out,
                    None => false,
                }
            },
            _ => true,
        }
    }
}

impl<T: Copy> Conv<T> {
    /// Loads the convolution of this name.
    pub fn load(w: &Weights<'_, T>, name: &str) -> (r: Result<Conv<T>, LoadError>)
        requires
            w.filled(name@),
        ensures
            r is Ok <==> w.conv_fault(name@) is None,
            r matches Ok(c) ==> w.holds(name@, c),
            r matches Err(e) ==> w.conv_fault(name@) == Some(e@),
    {
        let wk = keyed(name, ".weight");
        let bk = keyed(name, ".bias");
        let (c_out, c_in) = match w.shape(wk.as_str()) {
            Err(e) => {
                return Err(e);
            },
            Ok(s) => {
                if s.len() != 4 || s[2] != 3 || s[3] != 3 {
                    let mut shape: Vec<usize> = Vec::new();
                    let mut i: usize = 0;
                    while i < s.len()
                        invariant
                            i <= s@.len(),
                            shape@ == s@.take(i as int),
                        decreases s@.len() - i,
                    {
                        shape.push(s[i]);
                        i += 1;
                    }
                    assert(shape@ =~= s@);
                    return Err(LoadError::NotConv(wk, shape));
                }
                (s[0], s[1])
            },
        };
        let weight = match w.get(wk.as_str()) {
            Err(e) => {
                return Err(e);
            },
            Ok(d) => d,
        };
        let bias = match w.get(bk.as_str()) {
            Err(e) => {
                return Err(e);
            },
            Ok(d) => d,
        };
        Ok(Conv::new(weight, bias, c_in, c_out))
    }
}

/// The network's model holds the checkpoint's convolutions.
pub open spec fn binds<'a, T>(w: &Weights<'a, T>, m: &Model<T>) -> bool {
    &&& m.geom == w.config.geom()
    &&& m.blocks@.len() == w.config.num_block
    &&& forall|l: int|
        0 <= l < m.geom.layers() ==> w.holds(
            layer_name(w.config.num_block as int, l),
            #[trigger] m.layer(l),
        )
}

/// A checkpoint whose shapes are sound binds to a model that the network can
/// run: every convolution has the shape that the geometry gives it.
pub proof fn sound_model_is_wf<'a, T>(w: &Weights<'a, T>, m: &Model<T>)
    requires
        w.config.countable(),
        w.sound(),
        binds(w, m),
    ensures
        m.wf(),
{
    let g = m.geom;
    let nb = w.config.num_block as int;
    assert forall|l: int| 0 <= l < g.layers() implies {
        &&& (#[trigger] m.layer(l)).shaped(g.layer_in(l))
        &&& m.layer(l).c_out == g.layer_out(l)
    } by {
        let i = 2 * l;
        assert(w.expect_fault(i) is None);
        assert(w.holds(layer_name(nb, l), m.layer(l)));
        let want = weight_shape(g.layer_out(l), g.layer_in(l));
        assert(w.expect_shape(i) == want);
        assert(want[0] == g.layer_out(l) as usize && want[1] == g.layer_in(l) as usize);
        let k = (l - 1) % 5;
        assert(0 <= k < 5 ==> 0 <= k * g.num_grow_ch <= 4 * g.num_grow_ch) by (nonlinear_arith)
            requires
                0 <= g.num_grow_ch,
        ;
    }
}

/// A model whose parts hold the checkpoint's convolutions is bound to it.
proof fn lemma_bound<'a, T>(w: &Weights<'a, T>, m: &Model<T>)
    requires
        m.geom == w.config.geom(),
        m.blocks@.len() == w.config.num_block,
        forall|b: int, r: int, k: int|
            0 <= b < m.blocks@.len() && 0 <= r < 3 && 0 <= k < 5 ==> w.holds(
                layer_name(w.config.num_block as int, dense_layer(b, r, k)),
                #[trigger] m.blocks@[b].rdbs@[r].convs@[k],
            ),
        w.holds("conv_first"@, m.conv_first),
        w.holds("conv_body"@, m.conv_body),
        w.holds("conv_up1"@, m.conv_up1),
        w.holds("conv_up2"@, m.conv_up2),
        w.holds("conv_hr"@, m.conv_hr),
        w.holds("conv_last"@, m.conv_last),
    ensures
        binds(w, m),
{
    let nb = w.config.num_block as int;
    assert forall|l: int| 0 <= l < m.geom.layers() implies w.holds(
        layer_name(nb, l),
        #[trigger] m.layer(l),
    ) by {
        if 0 < l <= 15 * nb {
            let (b, r, k) = ((l - 1) / 15, ((l - 1) % 15) / 5, (l - 1) % 5);
            assert(dense_layer(b, r, k) == l);
            assert(w.holds(layer_name(nb, l), m.blocks@[b].rdbs@[r].convs@[k]));
        }
    }
}

impl<T: Copy> DenseBlock<T> {
    /// Loads dense block `r` of block `b`.
    #[verifier::rlimit(30)]
    fn load(w: &Weights<'_, T>, b: usize, r: usize) -> (res: Result<DenseBlock<T>, LoadError>)
        requires
            w.all_filled(),
            b < w.config.num_block,
            r < 3,
            w.loads_to(15 * b + 5 * r),
        ensures
            res matches Ok(d) ==> {
                &&& w.loads_to(15 * b + 5 * r + 5)
                &&& forall|k: int|
                    0 <= k < 5 ==> w.holds(
                        layer_name(
                            w.config.num_block as int,
                            dense_layer(b as int, r as int, k),
                        ),
                        #[trigger] d.convs@[k],
                    )
            },
            res matches Err(e) ==> w.first_load_fault(e@),
    {
        let c0 = match load_dense(w, b, r, 0) {
            Ok(c) => c,
            Err(e) => return Err(e),
        };
        let c1 = match load_dense(w, b, r, 1) {
            Ok(c) => c,
            Err(e) => return Err(e),
        };
        let c2 = match load_dense(w, b, r, 2) {
            Ok(c) => c,
            Err(e) => return Err(e),
        };
        let c3 = match load_dense(w, b, r, 3) {
            Ok(c) => c,
            Err(e) => return Err(e),
        };
        let c4 = match load_dense(w, b, r, 4) {
            Ok(c) => c,
            Err(e) => return Err(e),
        };
        let convs = [c0, c1, c2, c3, c4];
        proof {
            let nb = w.config.num_block as int;
            assert(convs@ =~= seq![c0, c1, c2, c3, c4]);
            assert forall|k: int| 0 <= k < 5 implies w.holds(
                layer_name(nb, dense_layer(b as int, r as int, k)),
                #[trigger] convs@[k],
            ) by {
                if k == 0 {
                } else if k == 1 {
                } else if k == 2 {
                } else if k == 3 {
                } else {
                    assert(k == 4);
                }
            }
        }
        Ok(DenseBlock { convs })
    }
}

/// Loads convolution `k` of dense block `r` of block `b`.
fn load_dense<T: Copy>(w: &Weights<'_, T>, b: usize, r: usize, k: usize) -> (res: Result<
    Conv<T>,
    LoadError,
>)
    requires
        w.all_filled(),
        b < w.config.num_block,
        r < 3,
        k < 5,
        w.loads_to(15 * b + 5 * r + k),
    ensures
        res matches Ok(c) ==> {
            &&& w.loads_to(15 * b + 5 * r + k + 1)
            &&& w.holds(
                layer_name(
                    w.config.num_block as int,
                    dense_layer(b as int, r as int, k as int),
                ),
                c,
            )
        },
        res matches Err(e) ==> w.first_load_fault(e@),
{
    let name = dense_text(b, r, k);
    proof {
        let (nb, j) = (w.config.num_block as int, 15 * b + 5 * r + k);
        lemma_dense_number(b as int, r as int, k as int);
        assert(w.load_layer(j) == dense_layer(b as int, r as int, k as int));
        assert(layer_name(nb, w.load_layer(j)) == name@);
        assert(w.load_fault(j) == w.conv_fault(name@));
    }
    Conv::load(w, name.as_str())
}

/// Loads a convolution outside the body, the `j`th that is loaded.
fn load_named<T: Copy>(w: &Weights<'_, T>, name: &str, Ghost(j): Ghost<int>) -> (res: Result<
    Conv<T>,
    LoadError,
>)
    requires
        w.all_filled(),
        0 <= j < w.config.geom().layers(),
        name@ == layer_name(w.config.num_block as int, w.load_layer(j)),
        w.loads_to(j),
    ensures
        res matches Ok(c) ==> w.loads_to(j + 1) && w.holds(name@, c),
        res matches Err(e) ==> w.first_load_fault(e@),
{
    assert(w.load_fault(j) == w.conv_fault(name@));
    Conv::load(w, name)
}

impl<T: Copy> Model<T> {
    /// Loads all blocks.
    fn load_blocks(w: &Weights<'_, T>) -> (res: Result<Vec<Rrdb<T>>, LoadError>)
        requires
            w.all_filled(),
        ensures
            res matches Ok(v) ==> {
                &&& w.loads_to(15 * w.config.num_block)
                &&& v@.len() == w.config.num_block
                &&& forall|b: int, r: int, k: int|
                    0 <= b < v@.len() && 0 <= r < 3 && 0 <= k < 5 ==> w.holds(
                        layer_name(w.config.num_block as int, dense_layer(b, r, k)),
                        #[trigger] v@[b].rdbs@[r].convs@[k],
                    )
            },
            res matches Err(e) ==> w.first_load_fault(e@),
    {
        let nb = w.config.num_block;
        let mut blocks: Vec<Rrdb<T>> = Vec::new();
        while blocks.len() < nb
            invariant
                nb == w.config.num_block,
                w.all_filled(),
                blocks@.len() <= nb,
                w.loads_to(15 * blocks@.len() as int),
                forall|b: int, r: int, k: int|
                    0 <= b < blocks@.len() && 0 <= r < 3 && 0 <= k < 5 ==> w.holds(
                        layer_name(nb as int, dense_layer(b, r, k)),
                        #[trigger] blocks@[b].rdbs@[r].convs@[k],
                    ),
            decreases nb - blocks@.len(),
        {
            let b = blocks.len();
            let r0 = match DenseBlock::load(w, b, 0) {
                Ok(d) => d,
                Err(e) => return Err(e),
            };
            let r1 = match DenseBlock::load(w, b, 1) {
                Ok(d) => d,
                Err(e) => return Err(e),
            };
            let r2 = match DenseBlock::load(w, b, 2) {
                Ok(d) => d,
                Err(e) => return Err(e),
            };
            blocks.push(Rrdb { rdbs: [r0, r1, r2] });
        }
        Ok(blocks)
    }

    /// Loads the network.
    #[verifier::rlimit(40)]
    pub fn load(w: &Weights<'_, T>) -> (res: Result<Model<T>, LoadError>)
        requires
            w.all_filled(),
        ensures
            res is Ok <==> w.loads_to(w.config.geom().layers()),
            res matches Ok(m) ==> binds(w, &m) && (w.config.countable() && w.sound() ==> m.wf()),
            res matches Err(e) ==> w.first_load_fault(e@),
    {
        let ghost n = 15 * w.config.num_block;
        let blocks = match Model::load_blocks(w) {
            Ok(v) => v,
            Err(e) => return Err(e),
        };
        let conv_first = match load_named(w, "conv_first", Ghost(n)) {
            Ok(c) => c,
            Err(e) => return Err(e),
        };
        let conv_body = match load_named(w, "conv_body", Ghost(n + 1)) {
            Ok(c) => c,
            Err(e) => return Err(e),
        };
        let conv_up1 = match load_named(w, "conv_up1", Ghost(n + 2)) {
            Ok(c) => c,
            Err(e) => return Err(e),
        };
        let conv_up2 = match load_named(w, "conv_up2", Ghost(n + 3)) {
            Ok(c) => c,
            Err(e) => return Err(e),
        };
        let conv_hr = match load_named(w, "conv_hr", Ghost(n + 4)) {
            Ok(c) => c,
            Err(e) => return Err(e),
        };
        let conv_last = match load_named(w, "conv_last", Ghost(n + 5)) {
            Ok(c) => c,
            Err(e) => return Err(e),
        };
        let m = Model {
            geom: w.config.geometry(),
            conv_first,
            blocks,
            conv_body,
            conv_up1,
            conv_up2,
            conv_hr,
            conv_last,
        };
        proof {
            lemma_bound(w, &m);
            if w.config.countable() && w.sound() {
                sound_model_is_wf(w, &m);
            }
        }
        Ok(m)
    }
}

impl<'a, T: Copy> Weights<'a, T> {
    /// Do the values of every convolution of the network fill its shape?
    pub fn are_filled(&self) -> (res: bool)
        ensures
            res == self.all_filled(),
    {
        let nb = self.config.num_block;
        let mut b: usize = 0;
        while b < nb
            invariant
                nb == self.config.num_block,
                b <= nb,
                forall|l: int|
                    0 < l <= 15 * b ==> self.filled(#[trigger] layer_name(nb as int, l)),
            decreases nb - b,
        {
            let mut i: usize = 0;
            while i < 15
                invariant
                    nb == self.config.num_block,
                    b < nb,
                    i <= 15,
                    forall|l: int|
                        0 < l <= 15 * b + i ==> self.filled(#[trigger] layer_name(nb as int, l)),
                decreases 15 - i,
            {
                let name = dense_text(b, i / 5, i % 5);
                proof {
                    lemma_dense_number(b as int, (i / 5) as int, (i % 5) as int);
                    let l = 15 * b + i + 1;
                    assert(dense_layer(b as int, (i / 5) as int, (i % 5) as int) == l);
                    assert(layer_name(nb as int, l) == name@);
                }
                if !self.is_filled(name.as_str()) {
                    return false;
                }
                i += 1;
            }
            b += 1;
        }
        proof {
            let n = 15 * nb;
            assert(layer_name(nb as int, 0) == "conv_first"@);
            assert(layer_name(nb as int, n + 1) == "conv_body"@);
            assert(layer_name(nb as int, n + 2) == "conv_up1"@);
            assert(layer_name(nb as int, n + 3) == "conv_up2"@);
            assert(layer_name(nb as int, n + 4) == "conv_hr"@);
            assert(layer_name(nb as int, n + 5) == "conv_last"@);
        }
        self.is_filled("conv_first") && self.is_filled("conv_body") && self.is_filled("conv_up1")
            && self.is_filled("conv_up2") && self.is_filled("conv_hr") && self.is_filled(
            "conv_last",
        )
    }
}

} // verus!
