//! The network's parameters: its geometry and its convolutions.

use vstd::prelude::*;

use crate::conv::Conv;
use crate::grid::lemma_quot_rem;

verus! {

/// Model geometry, read from the checkpoint metadata.
#[derive(Clone, Copy, PartialEq, Eq, Structural, Debug)]
pub struct Geometry {
    pub scale: usize,
    pub num_feat: usize,
    pub num_block: usize,
    pub num_grow_ch: usize,
    pub in_ch: usize,
    pub out_ch: usize,
}

impl Geometry {
    /// Input channels of the first convolution.
    pub open spec fn first_in(&self) -> int {
        if self.scale == 2 {
            self.in_ch * 4
        } else {
            self.in_ch as int
        }
    }

    /// Channels of the dense-block workspace.
    pub open spec fn dense(&self) -> int {
        self.num_feat + 4 * self.num_grow_ch
    }

    /// Rows or columns the network works on, of an image with `n`.
    pub open spec fn working(&self, n: int) -> int {
        if self.scale == 2 {
            n / 2
        } else {
            n
        }
    }

    /// How many convolutions the network has.
    pub open spec fn layers(&self) -> int {
        6 + 15 * self.num_block
    }

    /// Input channels of convolution `l`, the convolutions counted in the order
    /// of the graph: the first, the five of each dense block of each block, the
    /// body's, the two of the upsampling, and the two of the head.
    pub open spec fn layer_in(&self, l: int) -> int {
        if l == 0 {
            self.first_in()
        } else if l <= 15 * self.num_block {
            self.num_feat + ((l - 1) % 5) * self.num_grow_ch
        } else {
            self.num_feat as int
        }
    }

    /// Output channels of convolution `l`.
    pub open spec fn layer_out(&self, l: int) -> int {
        if 0 < l <= 15 * self.num_block && (l - 1) % 5 < 4 {
            self.num_grow_ch as int
        } else if l == self.layers() - 1 {
            self.out_ch as int
        } else {
            self.num_feat as int
        }
    }

    /// Input channels of the first convolution: the x2 model unshuffles its
    /// input by 2x2 first.
    pub fn first_in_ch(&self) -> (r: usize)
        requires
            self.first_in() <= usize::MAX,
        ensures
            r == self.first_in(),
    {
        if self.scale == 2 {
            self.in_ch * 4
        } else {
            self.in_ch
        }
    }

    /// The dense-block workspace width.
    pub fn dense_width(&self) -> (r: usize)
        requires
            self.dense() <= usize::MAX,
        ensures
            r == self.dense(),
    {
        self.num_feat + 4 * self.num_grow_ch
    }
}

/// One residual dense block: 5 convolutions over a growing channel prefix.
pub struct DenseBlock<T> {
    pub convs: [Conv<T>; 5],
}

/// One RRDB: 3 dense blocks with a scaled residual.
pub struct Rrdb<T> {
    pub rdbs: [DenseBlock<T>; 3],
}

/// Everything the forward pass needs, in canonical order.
pub struct Model<T> {
    pub geom: Geometry,
    pub conv_first: Conv<T>,
    pub blocks: Vec<Rrdb<T>>,
    pub conv_body: Conv<T>,
    pub conv_up1: Conv<T>,
    pub conv_up2: Conv<T>,
    pub conv_hr: Conv<T>,
    pub conv_last: Conv<T>,
}

/// The number of convolution `k` of dense block `r` of block `b`.
pub open spec fn dense_layer(b: int, r: int, k: int) -> int {
    1 + 15 * b + 5 * r + k
}

/// A convolution's block, dense block and place in it can be read back from its
/// number.
pub proof fn lemma_dense_number(b: int, r: int, k: int)
    requires
        0 <= b,
        0 <= r < 3,
        0 <= k < 5,
    ensures
        (dense_layer(b, r, k) - 1) / 15 == b,
        ((dense_layer(b, r, k) - 1) % 15) / 5 == r,
        (dense_layer(b, r, k) - 1) % 5 == k,
{
    lemma_quot_rem(b, 15, 5 * r + k);
    lemma_quot_rem(r, 5, k);
    lemma_quot_rem(3 * b + r, 5, k);
}

impl<T> Model<T> {
    /// Convolution `l`, counted in the order of the graph.
    pub open spec fn layer(&self, l: int) -> Conv<T> {
        let nb = self.blocks@.len() as int;
        if l == 0 {
            self.conv_first
        } else if l <= 15 * nb {
            self.blocks@[(l - 1) / 15].rdbs@[((l - 1) % 15) / 5].convs@[(l - 1) % 5]
        } else if l == 15 * nb + 1 {
            self.conv_body
        } else if l == 15 * nb + 2 {
            self.conv_up1
        } else if l == 15 * nb + 3 {
            self.conv_up2
        } else if l == 15 * nb + 4 {
            self.conv_hr
        } else {
            self.conv_last
        }
    }

    /// Every convolution has the shape that the geometry gives it.
    pub open spec fn wf(&self) -> bool {
        &&& self.blocks@.len() == self.geom.num_block
        &&& forall|l: int|
            0 <= l < self.geom.layers() ==> {
                &&& (#[trigger] self.layer(l)).shaped(self.geom.layer_in(l))
                &&& self.layer(l).c_out == self.geom.layer_out(l)
            }
    }

    /// Convolution `k` of dense block `r` of block `b` has its number.
    pub proof fn lemma_dense_layer(&self, b: int, r: int, k: int)
        requires
            0 <= b < self.blocks@.len(),
            0 <= r < 3,
            0 <= k < 5,
        ensures
            self.layer(dense_layer(b, r, k)) == self.blocks@[b].rdbs@[r].convs@[k],
            0 < dense_layer(b, r, k) <= 15 * self.blocks@.len(),
            (dense_layer(b, r, k) - 1) % 5 == k,
    {
        lemma_dense_number(b, r, k);
    }
}

/// Values of the first `n` convolutions' weights and biases together.
pub open spec fn params<T>(m: &Model<T>, n: nat) -> int
    decreases n,
{
    if n == 0 {
        0
    } else {
        let c = m.layer(n - 1);
        params(m, (n - 1) as nat) + c.w@.len() + c.bias@.len()
    }
}

} // verus!
