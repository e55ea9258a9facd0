//! Weights: the Real-ESRGAN reading of a converted checkpoint.
//!
//! The container gives named tensors and integer metadata. What is specific to
//! the network is here:
//!
//! * the architecture constants are read out of the metadata;
//! * every tensor the graph walks is shape-checked against those constants, since
//!   a mis-converted checkpoint should fail at load and not give a
//!   plausible-looking image;
//! * whether the file is the x2 model, which unshuffles its input by 2x2 first.

use vstd::prelude::*;

use crate::model::dense_layer;
use crate::model::lemma_dense_number;
use crate::model::Geometry;
use crate::text::bracketed;
use crate::text::decimal;
use crate::text::push_decimal;
use crate::text::push_list;
use crate::text::same_text;

verus! {

/// The architecture constants the engine needs before it can walk the graph.
#[derive(Clone, Copy, PartialEq, Eq, Structural, Debug)]
pub struct Config {
    pub scale: usize,
    pub num_feat: usize,
    pub num_block: usize,
    pub num_grow_ch: usize,
    pub in_ch: usize,
    pub out_ch: usize,
}

impl Config {
    /// The network of these constants.
    pub open spec fn geom(&self) -> Geometry {
        Geometry {
            scale: self.scale,
            num_feat: self.num_feat,
            num_block: self.num_block,
            num_grow_ch: self.num_grow_ch,
            in_ch: self.in_ch,
            out_ch: self.out_ch,
        }
    }

    /// The channel counts of every convolution can be held.
    pub open spec fn countable(&self) -> bool {
        self.geom().first_in() <= usize::MAX && self.geom().dense() <= usize::MAX
    }

    /// Can the channel counts of every convolution be held?
    pub fn is_countable(&self) -> (r: bool)
        ensures
            r == self.countable(),
    {
        let first = if self.scale == 2 {
            self.in_ch.checked_mul(4)
        } else {
            Some(self.in_ch)
        };
        let grown = match self.num_grow_ch.checked_mul(4) {
            Some(n) => self.num_feat.checked_add(n),
            None => None,
        };
        first.is_some() && grown.is_some()
    }

    /// Input channels of the first convolution: the x2 model unshuffles its
    /// input by 2x2 first.
    pub fn first_in_ch(&self) -> (r: usize)
        requires
            self.geom().first_in() <= usize::MAX,
        ensures
            r == self.geom().first_in(),
            r == if self.scale == 2 {
                self.in_ch * 4
            } else {
                self.in_ch as int
            },
    {
        if self.scale == 2 {
            self.in_ch * 4
        } else {
            self.in_ch
        }
    }

    /// The network of these constants.
    pub fn geometry(&self) -> (r: Geometry)
        ensures
            r == self.geom(),
    {
        Geometry {
            scale: self.scale,
            num_feat: self.num_feat,
            num_block: self.num_block,
            num_grow_ch: self.num_grow_ch,
            in_ch: self.in_ch,
            out_ch: self.out_ch,
        }
    }
}

/// The architecture constants as the checkpoint's metadata has them: a constant
/// may be missing.
#[derive(Clone, Copy, PartialEq, Eq, Structural, Debug)]
pub struct Metadata {
    pub scale: Option<usize>,
    pub num_feat: Option<usize>,
    pub num_block: Option<usize>,
    pub num_grow_ch: Option<usize>,
    pub in_ch: Option<usize>,
    pub out_ch: Option<usize>,
}

impl Metadata {
    /// The first constant that is missing.
    pub open spec fn missing(&self) -> Option<Seq<char>> {
        if self.scale is None {
            Some("scale"@)
        } else if self.num_feat is None {
            Some("num_feat"@)
        } else if self.num_block is None {
            Some("num_block"@)
        } else if self.num_grow_ch is None {
            Some("num_grow_ch"@)
        } else if self.in_ch is None {
            Some("in_ch"@)
        } else if self.out_ch is None {
            Some("out_ch"@)
        } else {
            None
        }
    }

    /// The constants, where none is missing.
    pub open spec fn constants(&self) -> Config {
        Config {
            scale: self.scale->0,
            num_feat: self.num_feat->0,
            num_block: self.num_block->0,
            num_grow_ch: self.num_grow_ch->0,
            in_ch: self.in_ch->0,
            out_ch: self.out_ch->0,
        }
    }

    /// The constants, or the first that is missing.
    pub fn config(&self) -> (r: Result<Config, LoadError>)
        ensures
            r matches Ok(c) ==> self.missing() is None && c == self.constants(),
            r matches Err(e) ==> self.missing() matches Some(k) && e@ == Fault::NoMetadata(k),
    {
        let scale = match self.scale {
            Some(v) => v,
            None => return Err(LoadError::NoMetadata("scale".to_owned())),
        };
        let num_feat = match self.num_feat {
            Some(v) => v,
            None => return Err(LoadError::NoMetadata("num_feat".to_owned())),
        };
        let num_block = match self.num_block {
            Some(v) => v,
            None => return Err(LoadError::NoMetadata("num_block".to_owned())),
        };
        let num_grow_ch = match self.num_grow_ch {
            Some(v) => v,
            None => return Err(LoadError::NoMetadata("num_grow_ch".to_owned())),
        };
        let in_ch = match self.in_ch {
            Some(v) => v,
            None => return Err(LoadError::NoMetadata("in_ch".to_owned())),
        };
        let out_ch = match self.out_ch {
            Some(v) => v,
            None => return Err(LoadError::NoMetadata("out_ch".to_owned())),
        };
        Ok(Config { scale, num_feat, num_block, num_grow_ch, in_ch, out_ch })
    }
}

/// Why a checkpoint cannot be used.
pub enum LoadError {
    /// The metadata lack this constant.
    NoMetadata(String),
    /// There is no tensor of this name.
    NoTensor(String),
    /// The tensor of this name does not hold single-precision values.
    NotF32(String),
    /// The tensor of this name has another shape than the constants ask for: its
    /// own, and the one asked for.
    Shape(String, Vec<usize>, Vec<usize>),
    /// The tensor of this name is no weight of a 3x3 convolution: its shape.
    NotConv(String, Vec<usize>),
}

/// What a [`LoadError`] says.
pub enum Fault {
    NoMetadata(Seq<char>),
    NoTensor(Seq<char>),
    NotF32(Seq<char>),
    Shape(Seq<char>, Seq<usize>, Seq<usize>),
    NotConv(Seq<char>, Seq<usize>),
}

impl View for LoadError {
    type V = Fault;

    open spec fn view(&self) -> Fault {
        match self {
            LoadError::NoMetadata(k) => Fault::NoMetadata(k@),
            LoadError::NoTensor(n) => Fault::NoTensor(n@),
            LoadError::NotF32(n) => Fault::NotF32(n@),
            LoadError::Shape(n, got, want) => Fault::Shape(n@, got@, want@),
            LoadError::NotConv(n, got) => Fault::NotConv(n@, got@),
        }
    }
}

impl Fault {
    /// The message of the fault.
    pub open spec fn text(self) -> Seq<char> {
        match self {
            Fault::NoMetadata(k) => "checkpoint metadata is missing `"@ + k
                + "` (not a converted Real-ESRGAN file?)"@,
            Fault::NoTensor(n) => "no tensor "@ + n,
            Fault::NotF32(n) => n + ": not f32"@,
            Fault::Shape(n, got, want) => n + ": shape "@ + bracketed(got) + ", expected "@
                + bracketed(want),
            Fault::NotConv(n, got) => n + ": expected a [c_out, c_in, 3, 3] weight, got "@
                + bracketed(got),
        }
    }
}

impl LoadError {
    /// The message of the error.
    pub fn message(&self) -> (r: String)
        ensures
            r@ == self@.text(),
    {
        match self {
            LoadError::NoMetadata(k) => {
                let mut s = "checkpoint metadata is missing `".to_owned();
                s.append(k.as_str());
                s.append("` (not a converted Real-ESRGAN file?)");
                s
            },
            LoadError::NoTensor(n) => {
                let mut s = "no tensor ".to_owned();
                s.append(n.as_str());
                s
            },
            LoadError::NotF32(n) => {
                let mut s = n.clone();
                s.append(": not f32");
                s
            },
            LoadError::Shape(n, got, want) => {
                let mut s = n.clone();
                s.append(": shape ");
                push_list(&mut s, got.as_slice());
                s.append(", expected ");
                push_list(&mut s, want.as_slice());
                s
            },
            LoadError::NotConv(n, got) => {
                let mut s = n.clone();
                s.append(": expected a [c_out, c_in, 3, 3] weight, got ");
                push_list(&mut s, got.as_slice());
                s
            },
        }
    }
}

/// One tensor of a checkpoint.
pub struct Tensor<'a, T> {
    pub name: String,
    pub shape: Vec<usize>,
    /// The values, or `None` where they are of another type.
    pub data: Option<&'a [T]>,
}

/// A checkpoint that has been opened.
pub struct Weights<'a, T> {
    /// The tensors, in the order of the file.
    pub tensors: Vec<Tensor<'a, T>>,
    /// Bytes of the tensors' payloads together.
    pub payload_bytes: usize,
    pub config: Config,
}

/// The first of the first `n` tensors that has the name.
pub open spec fn seek<'a, T>(ts: Seq<Tensor<'a, T>>, name: Seq<char>, n: nat) -> Option<int>
    decreases n,
{
    if n == 0 {
        None
    } else {
        match seek(ts, name, (n - 1) as nat) {
            Some(i) => Some(i),
            None => if ts[n - 1].name@ == name {
                Some(n - 1)
            } else {
                None
            },
        }
    }
}

/// What was found stays found, and carries the name.
proof fn lemma_seek<'a, T>(ts: Seq<Tensor<'a, T>>, name: Seq<char>, n: nat, m: nat)
    requires
        n <= m,
    ensures
        seek(ts, name, n) is Some ==> seek(ts, name, m) == seek(ts, name, n),
        seek(ts, name, m) matches Some(i) ==> 0 <= i < m && ts[i].name@ == name,
    decreases m,
{
    if m > 0 && n < m {
        lemma_seek(ts, name, n, (m - 1) as nat);
    } else if m > 0 {
        lemma_seek(ts, name, (n - 1) as nat, (m - 1) as nat);
    }
}

impl<'a, T> Weights<'a, T> {
    /// The tensor of this name, the first if there are several.
    pub open spec fn tensor(&self, name: Seq<char>) -> Option<Tensor<'a, T>> {
        match seek(self.tensors@, name, self.tensors@.len()) {
            Some(i) => Some(self.tensors@[i]),
            None => None,
        }
    }

    /// What is wrong with the tensor of this name, if it is to have the shape
    /// `want`.
    pub open spec fn shape_fault(&self, name: Seq<char>, want: Seq<usize>) -> Option<Fault> {
        match self.tensor(name) {
            None => Some(Fault::NoTensor(name)),
            Some(t) => if t.shape@ == want {
                None
            } else {
                Some(Fault::Shape(name, t.shape@, want))
            },
        }
    }

    /// What is wrong with the values of the tensor of this name.
    pub open spec fn data_fault(&self, name: Seq<char>) -> Option<Fault> {
        match self.tensor(name) {
            None => Some(Fault::NoTensor(name)),
            Some(t) => if t.data is None {
                Some(Fault::NotF32(name))
            } else {
                None
            },
        }
    }

    fn find(&self, name: &str) -> (r: Option<usize>)
        ensures
            r matches Some(i) ==> i < self.tensors@.len() && self.tensor(name@) == Some(
                self.tensors@[i as int],
            ),
            r is None ==> self.tensor(name@) is None,
    {
        let mut i: usize = 0;
        while i < self.tensors.len()
            invariant
                i <= self.tensors@.len(),
                seek(self.tensors@, name@, i as nat) is None,
            decreases self.tensors@.len() - i,
        {
            if same_text(self.tensors[i].name.as_str(), name) {
                proof {
                    let n = (i + 1) as nat;
                    assert(seek(self.tensors@, name@, (n - 1) as nat) is None);
                    assert(seek(self.tensors@, name@, n) == Some(n - 1));
                    lemma_seek(self.tensors@, name@, n, self.tensors@.len());
                }
                return Some(i);
            }
            proof {
                let n = (i + 1) as nat;
                assert(seek(self.tensors@, name@, (n - 1) as nat) is None);
                assert(seek(self.tensors@, name@, n) is None);
            }
            i += 1;
        }
        None
    }

    /// The shape of a tensor.
    pub fn shape(&self, name: &str) -> (r: Result<&[usize], LoadError>)
        ensures
            r matches Ok(s) ==> self.tensor(name@) matches Some(t) && s@ == t.shape@,
            r matches Err(e) ==> self.tensor(name@) is None && e@ == Fault::NoTensor(name@),
    {
        match self.find(name) {
            Some(i) => Ok(self.tensors[i].shape.as_slice()),
            None => Err(LoadError::NoTensor(name.to_owned())),
        }
    }

    /// The values of a tensor.
    pub fn get(&self, name: &str) -> (r: Result<&'a [T], LoadError>)
        ensures
            r matches Ok(d) ==> self.tensor(name@) matches Some(t) && t.data == Some(d),
            r matches Err(e) ==> self.data_fault(name@) == Some(e@),
            self.data_fault(name@) is None ==> r is Ok,
    {
        match self.find(name) {
            Some(i) => match self.tensors[i].data {
                Some(d) => Ok(d),
                None => Err(LoadError::NotF32(name.to_owned())),
            },
            None => Err(LoadError::NoTensor(name.to_owned())),
        }
    }

    /// Bytes of the tensors' payloads together.
    pub fn total_bytes(&self) -> (r: usize)
        ensures
            r == self.payload_bytes,
    {
        self.payload_bytes
    }
}

/// The name of convolution `k` of dense block `r` of block `b`, all counted from
/// zero.
pub open spec fn dense_name(b: int, r: int, k: int) -> Seq<char> {
    "body."@ + decimal(b as nat) + ".rdb"@ + decimal((r + 1) as nat) + ".conv"@ + decimal(
        (k + 1) as nat,
    )
}

/// The name of convolution `l` of a network with `nb` blocks.
pub open spec fn layer_name(nb: int, l: int) -> Seq<char> {
    if l == 0 {
        "conv_first"@
    } else if l <= 15 * nb {
        dense_name((l - 1) / 15, ((l - 1) % 15) / 5, (l - 1) % 5)
    } else if l == 15 * nb + 1 {
        "conv_body"@
    } else if l == 15 * nb + 2 {
        "conv_up1"@
    } else if l == 15 * nb + 3 {
        "conv_up2"@
    } else if l == 15 * nb + 4 {
        "conv_hr"@
    } else {
        "conv_last"@
    }
}

/// The name of convolution `k` of dense block `r` of block `b`.
pub fn dense_text(b: usize, r: usize, k: usize) -> (s: String)
    requires
        r < 3,
        k < 5,
    ensures
        s@ == dense_name(b as int, r as int, k as int),
{
    let mut s = "body.".to_owned();
    push_decimal(&mut s, b as u64);
    s.append(".rdb");
    push_decimal(&mut s, (r + 1) as u64);
    s.append(".conv");
    push_decimal(&mut s, (k + 1) as u64);
    s
}

/// `name` with `suffix` behind it.
pub(crate) fn keyed(name: &str, suffix: &str) -> (s: String)
    ensures
        s@ == name@ + suffix@,
{
    let mut s = name.to_owned();
    s.append(suffix);
    s
}

/// The shape of the weight of a 3x3 convolution.
pub open spec fn weight_shape(c_out: int, c_in: int) -> Seq<usize> {
    seq![c_out as usize, c_in as usize, 3, 3]
}

impl<'a, T> Weights<'a, T> {
    /// The `i`th tensor that is checked: every convolution's weight, and behind it
    /// its bias.
    pub open spec fn expect_name(&self, i: int) -> Seq<char> {
        layer_name(self.config.num_block as int, i / 2) + if i % 2 == 0 {
            ".weight"@
        } else {
            ".bias"@
        }
    }

    /// The shape that it is to have.
    pub open spec fn expect_shape(&self, i: int) -> Seq<usize> {
        let g = self.config.geom();
        if i % 2 == 0 {
            weight_shape(g.layer_out(i / 2), g.layer_in(i / 2))
        } else {
            seq![g.layer_out(i / 2) as usize]
        }
    }

    /// What is wrong with the `i`th tensor that is checked.
    pub open spec fn expect_fault(&self, i: int) -> Option<Fault> {
        self.shape_fault(self.expect_name(i), self.expect_shape(i))
    }

    /// Nothing is wrong with the first `n` of them.
    pub open spec fn sound_to(&self, n: int) -> bool {
        forall|i: int| 0 <= i < n ==> #[trigger] self.expect_fault(i) is None
    }

    /// Every tensor that the graph walks has the shape that the constants ask for.
    pub open spec fn sound(&self) -> bool {
        self.sound_to(2 * self.config.geom().layers())
    }

    /// `f` is what is wrong with the first tensor that fails its check.
    pub open spec fn first_fault(&self, f: Fault) -> bool {
        exists|i: int|
            {
                &&& 0 <= i < 2 * self.config.geom().layers()
                &&& self.sound_to(i)
                &&& #[trigger] self.expect_fault(i) == Some(f)
            }
    }

    fn expect(&self, name: &str, want: Vec<usize>) -> (r: Result<(), LoadError>)
        ensures
            r is Ok ==> self.shape_fault(name@, want@) is None,
            r matches Err(e) ==> self.shape_fault(name@, want@) == Some(e@),
    {
        match self.shape(name) {
            Err(e) => Err(e),
            Ok(got) => {
                let mut same = got.len() == want.len();
                let mut i: usize = 0;
                while same && i < got.len()
                    invariant
                        same ==> got@.len() == want@.len(),
                        i <= got@.len(),
                        same ==> forall|j: int| 0 <= j < i ==> got@[j] == want@[j],
                        !same ==> got@ != want@,
                    decreases
                            got@.len() - i + if same {
                                1int
                            } else {
                                0
                            },
                {
                    if got[i] == want[i] {
                        i += 1;
                    } else {
                        same = false;
                    }
                }
                if same {
                    assert(got@ =~= want@);
                    Ok(())
                } else {
                    let mut shape: Vec<usize> = Vec::new();
                    let mut i: usize = 0;
                    while i < got.len()
                        invariant
                            i <= got@.len(),
                            shape@ == got@.take(i as int),
                        decreases got@.len() - i,
                    {
                        shape.push(got[i]);
                        i += 1;
                    }
                    assert(shape@ =~= got@);
                    Err(LoadError::Shape(name.to_owned(), shape, want))
                }
            },
        }
    }

    /// Checks the weight and the bias of convolution `l`.
    fn expect_conv(&self, name: &str, c_out: usize, c_in: usize, Ghost(l): Ghost<int>) -> (r: Result<
        (),
        LoadError,
    >)
        requires
            0 <= l < self.config.geom().layers(),
            name@ == layer_name(self.config.num_block as int, l),
            c_out == self.config.geom().layer_out(l),
            c_in == self.config.geom().layer_in(l),
            self.sound_to(2 * l),
        ensures
            r is Ok ==> self.sound_to(2 * (l + 1)),
            r matches Err(e) ==> self.first_fault(e@),
    {
        let want = vec![c_out, c_in, 3, 3];
        let key = keyed(name, ".weight");
        proof {
            assert(want@ =~= weight_shape(c_out as int, c_in as int));
            assert((2 * l) / 2 == l && (2 * l) % 2 == 0);
            assert(self.expect_fault(2 * l) == self.shape_fault(key@, want@));
        }
        match self.expect(key.as_str(), want) {
            Ok(()) => {},
            Err(e) => {
                return Err(e);
            },
        }
        let want = vec![c_out];
        let key = keyed(name, ".bias");
        proof {
            let i = 2 * l + 1;
            assert(i / 2 == l && i % 2 == 1);
            assert(want@ =~= seq![c_out]);
            assert(self.expect_fault(i) == self.shape_fault(key@, want@));
            assert(self.sound_to(i));
        }
        self.expect(key.as_str(), want)
    }

    /// Checks the convolutions of one block.
    fn check_block(&self, b: usize) -> (r: Result<(), LoadError>)
        requires
            self.config.countable(),
            b < self.config.num_block,
            self.sound_to(2 * (1 + 15 * b)),
        ensures
            r is Ok ==> self.sound_to(2 * (1 + 15 * (b + 1))),
            r matches Err(e) ==> self.first_fault(e@),
    {
        let (nf, ng) = (self.config.num_feat, self.config.num_grow_ch);
        let mut r: usize = 0;
        while r < 3
            invariant
                nf == self.config.num_feat,
                ng == self.config.num_grow_ch,
                self.config.countable(),
                b < self.config.num_block,
                r <= 3,
                self.sound_to(2 * (1 + 15 * b + 5 * r)),
            decreases 3 - r,
        {
            let mut k: usize = 0;
            let mut c_in: usize = nf;
            while k < 5
                invariant
                    nf == self.config.num_feat,
                    ng == self.config.num_grow_ch,
                    self.config.countable(),
                    b < self.config.num_block,
                    r < 3,
                    k <= 5,
                    k < 5 ==> c_in == nf + k * ng,
                    self.sound_to(2 * (1 + 15 * b + 5 * r + k)),
                decreases 5 - k,
            {
                let c_out = if k < 4 {
                    ng
                } else {
                    nf
                };
                let name = dense_text(b, r, k);
                let ghost l = dense_layer(b as int, r as int, k as int);
                proof {
                    lemma_dense_number(b as int, r as int, k as int);
                }
                let checked = self.expect_conv(name.as_str(), c_out, c_in, Ghost(l));
                match checked {
                    Ok(()) => {},
                    Err(e) => {
                        return Err(e);
                    },
                }
                k += 1;
                if k < 5 {
                    assert(k * ng == (k - 1) * ng + ng && k * ng <= 4 * ng) by (nonlinear_arith)
                        requires
                            1 <= k <= 4,
                            0 <= ng,
                    ;
                    c_in = c_in + ng;
                }
            }
            r += 1;
        }
        Ok(())
    }

    /// Checks the shapes against the architecture that the metadata claim. A
    /// mismatch means a corrupted or wrongly converted checkpoint.
    pub fn check_shapes(&self) -> (r: Result<(), LoadError>)
        requires
            self.config.countable(),
        ensures
            r is Ok <==> self.sound(),
            r matches Err(e) ==> self.first_fault(e@),
    {
        let c = self.config;
        let nf = c.num_feat;
        match self.expect_conv("conv_first", nf, c.first_in_ch(), Ghost(0)) {
            Ok(()) => {},
            Err(e) => {
                return Err(e);
            },
        }
        let mut b: usize = 0;
        while b < c.num_block
            invariant
                c == self.config,
                c.countable(),
                b <= c.num_block,
                self.sound_to(2 * (1 + 15 * b)),
            decreases c.num_block - b,
        {
            match self.check_block(b) {
                Ok(()) => {},
                Err(e) => {
                    return Err(e);
                },
            }
            b += 1;
        }
        let ghost l = 15 * c.num_block;
        match self.expect_conv("conv_body", nf, nf, Ghost(l + 1)) {
            Ok(()) => {},
            Err(e) => {
                return Err(e);
            },
        }
        match self.expect_conv("conv_up1", nf, nf, Ghost(l + 2)) {
            Ok(()) => {},
            Err(e) => {
                return Err(e);
            },
        }
        match self.expect_conv("conv_up2", nf, nf, Ghost(l + 3)) {
            Ok(()) => {},
            Err(e) => {
                return Err(e);
            },
        }
        match self.expect_conv("conv_hr", nf, nf, Ghost(l + 4)) {
            Ok(()) => {},
            Err(e) => {
                return Err(e);
            },
        }
        self.expect_conv("conv_last", c.out_ch, nf, Ghost(l + 5))
    }

    /// Opens a checkpoint: its constants are read out of the metadata, and every
    /// tensor that the graph walks is checked against them.
    pub fn open(tensors: Vec<Tensor<'a, T>>, payload_bytes: usize, meta: &Metadata) -> (r: Result<
        Weights<'a, T>,
        LoadError,
    >)
        requires
            meta.missing() is None ==> meta.constants().countable(),
        ensures
            ({
                let w = Weights { tensors, payload_bytes, config: meta.constants() };
                &&& r is Ok <==> meta.missing() is None && w.sound()
                &&& r matches Ok(v) ==> v == w
                &&& r matches Err(e) ==> match meta.missing() {
                    Some(k) => e@ == Fault::NoMetadata(k),
                    None => w.first_fault(e@),
                }
            }),
    {
        match meta.config() {
            Err(e) => Err(e),
            Ok(config) => {
                let w = Weights { tensors, payload_bytes, config };
                match w.check_shapes() {
                    Ok(()) => Ok(w),
                    Err(e) => Err(e),
                }
            },
        }
    }
}

} // verus!
