//! One buffer for all weights.
//!
//! The convolutions' parameters are laid end to end in the order of the graph,
//! each convolution's weights and then its biases, so that all of them are one
//! upload and a launch addresses its own by an offset.

use vstd::prelude::*;

use crate::conv::Conv;
use crate::model::dense_layer;
use crate::model::lemma_dense_number;
use crate::model::params;
use crate::model::Model;
use crate::plane::filled;
use crate::plane::write_at;

verus! {

/// Element offsets of a convolution's weights and biases in the weight buffer.
#[derive(Clone, Copy, PartialEq, Eq, Structural, Debug)]
pub struct ConvLoc {
    pub w: usize,
    pub b: usize,
}

/// Where every convolution's parameters stand in the weight buffer.
pub struct Layout {
    pub conv_first: ConvLoc,
    /// `[num_block][3][5]`
    pub blocks: Vec<Vec<Vec<ConvLoc>>>,
    pub conv_body: ConvLoc,
    pub conv_up1: ConvLoc,
    pub conv_up2: ConvLoc,
    pub conv_hr: ConvLoc,
    pub conv_last: ConvLoc,
    /// Elements of the whole buffer.
    pub floats: usize,
}

impl Layout {
    /// Where convolution `l` stands, counted in the order of the graph.
    pub open spec fn loc(&self, l: int) -> ConvLoc {
        let nb = self.blocks@.len() as int;
        if l == 0 {
            self.conv_first
        } else if l <= 15 * nb {
            self.blocks@[(l - 1) / 15]@[((l - 1) % 15) / 5]@[(l - 1) % 5]
        } else if l == 15 * nb + 1 {
            self.conv_body
        } else if l == 15 * nb + 2 {
            self.conv_up1
        } else if l == 15 * nb + 3 {
            self.conv_up2
        } else if l == 15 * nb + 4 {
            self.conv_hr
        } else {
            self.conv_last
        }
    }

    /// The layout's nesting is that of the blocks.
    pub open spec fn nested(&self) -> bool {
        forall|b: int|
            0 <= b < self.blocks@.len() ==> (#[trigger] self.blocks@[b])@.len() == 3 && forall|r: int|
                0 <= r < 3 ==> (#[trigger] self.blocks@[b]@[r])@.len() == 5
    }

    /// This is the layout of the model: convolution `l` stands behind those
    /// before it, its biases behind its weights, and the last one ends the
    /// buffer.
    pub open spec fn lays<T>(&self, m: &Model<T>) -> bool {
        &&& self.blocks@.len() == m.blocks@.len()
        &&& self.nested()
        &&& forall|l: int|
            0 <= l < 15 * m.blocks@.len() + 6 ==> located(m, l, #[trigger] self.loc(l))
        &&& self.floats == params(m, 15 * m.blocks@.len() + 6)
    }
}

/// `c` is where convolution `l` stands.
pub open spec fn located<T>(m: &Model<T>, l: int, c: ConvLoc) -> bool {
    &&& c.w == params(m, l as nat)
    &&& c.b == params(m, l as nat) + m.layer(l).w@.len()
}

/// The parameters of the first `n` convolutions, end to end.
pub open spec fn packed<T>(m: &Model<T>, n: nat) -> Seq<T>
    decreases n,
{
    if n == 0 {
        Seq::empty()
    } else {
        let c = m.layer(n - 1);
        packed(m, (n - 1) as nat) + c.w@ + c.bias@
    }
}

/// More convolutions have no fewer parameters.
pub proof fn lemma_params<T>(m: &Model<T>, i: nat, j: nat)
    requires
        i <= j,
    ensures
        0 <= params(m, i) <= params(m, j),
    decreases j,
{
    if i < j {
        lemma_params(m, i, (j - 1) as nat);
    } else if j > 0 {
        lemma_params(m, (i - 1) as nat, (j - 1) as nat);
    }
}

/// Convolution `l` and what stands before it.
proof fn lemma_next<T>(m: &Model<T>, l: int, n: nat)
    requires
        0 <= l < n,
    ensures
        0 <= params(m, l as nat),
        params(m, (l + 1) as nat) == params(m, l as nat) + m.layer(l).w@.len() + m.layer(
            l,
        ).bias@.len(),
        params(m, (l + 1) as nat) <= params(m, n),
{
    lemma_params(m, 0, l as nat);
    lemma_params(m, (l + 1) as nat, n);
    let k = (l + 1) as nat;
    assert(k - 1 == l);
}

/// Places one convolution behind `off`.
fn place<T>(off: &mut usize, c: &Conv<T>) -> (r: ConvLoc)
    requires
        *old(off) + c.w@.len() + c.bias@.len() <= usize::MAX,
    ensures
        r.w == *old(off),
        r.b == *old(off) + c.w@.len(),
        *final(off) == *old(off) + c.w@.len() + c.bias@.len(),
{
    let w = *off;
    *off = *off + c.w.len();
    let b = *off;
    *off = *off + c.bias.len();
    ConvLoc { w, b }
}

/// Places the five convolutions of a dense block.
fn place_dense<T>(m: &Model<T>, b: usize, r: usize, off: &mut usize) -> (five: Vec<ConvLoc>)
    requires
        b < m.blocks@.len(),
        r < 3,
        *old(off) == params(m, dense_layer(b as int, r as int, 0) as nat),
        params(m, 15 * m.blocks@.len() + 6) <= usize::MAX,
    ensures
        five@.len() == 5,
        forall|k: int|
            0 <= k < 5 ==> located(m, dense_layer(b as int, r as int, k), #[trigger] five@[k]),
        *final(off) == params(m, dense_layer(b as int, r as int, 5) as nat),
{
    let mut five: Vec<ConvLoc> = Vec::new();
    let mut k: usize = 0;
    while k < 5
        invariant
            b < m.blocks@.len(),
            r < 3,
            k <= 5,
            five@.len() == k,
            *off == params(m, dense_layer(b as int, r as int, k as int) as nat),
            params(m, 15 * m.blocks@.len() + 6) <= usize::MAX,
            forall|j: int|
                0 <= j < k ==> located(m, dense_layer(b as int, r as int, j), #[trigger] five@[j]),
        decreases 5 - k,
    {
        proof {
            m.lemma_dense_layer(b as int, r as int, k as int);
            lemma_next(
                m,
                dense_layer(b as int, r as int, k as int),
                15 * m.blocks@.len() + 6,
            );
        }
        let loc = place(off, &m.blocks[b].rdbs[r].convs[k]);
        five.push(loc);
        k += 1;
    }
    five
}

impl Layout {
    /// Lays out the model's parameters.
    pub fn new<T>(m: &Model<T>) -> (r: Layout)
        requires
            params(m, 15 * m.blocks@.len() + 6) <= usize::MAX,
        ensures
            r.lays(m),
    {
        let ghost n = 15 * m.blocks@.len() + 6;
        let mut off: usize = 0;
        proof {
            lemma_next(m, 0, n);
        }
        let conv_first = place(&mut off, &m.conv_first);
        let mut blocks: Vec<Vec<Vec<ConvLoc>>> = Vec::new();
        while blocks.len() < m.blocks.len()
            invariant
                n == 15 * m.blocks@.len() + 6,
                params(m, n) <= usize::MAX,
                blocks@.len() <= m.blocks@.len(),
                off == params(m, (1 + 15 * blocks@.len()) as nat),
                forall|b: int|
                    0 <= b < blocks@.len() ==> (#[trigger] blocks@[b])@.len() == 3 && forall|r: int|
                        0 <= r < 3 ==> (#[trigger] blocks@[b]@[r])@.len() == 5,
                forall|b: int, r: int, k: int|
                    0 <= b < blocks@.len() && 0 <= r < 3 && 0 <= k < 5 ==> located(
                        m,
                        dense_layer(b, r, k),
                        #[trigger] blocks@[b]@[r]@[k],
                    ),
            decreases m.blocks@.len() - blocks@.len(),
        {
            let b = blocks.len();
            let mut row: Vec<Vec<ConvLoc>> = Vec::new();
            let mut r: usize = 0;
            while r < 3
                invariant
                    n == 15 * m.blocks@.len() + 6,
                    params(m, n) <= usize::MAX,
                    b < m.blocks@.len(),
                    r <= 3,
                    row@.len() == r,
                    off == params(m, dense_layer(b as int, r as int, 0) as nat),
                    forall|q: int| 0 <= q < r ==> (#[trigger] row@[q])@.len() == 5,
                    forall|q: int, k: int|
                        0 <= q < r && 0 <= k < 5 ==> located(
                            m,
                            dense_layer(b as int, q, k),
                            #[trigger] row@[q]@[k],
                        ),
                decreases 3 - r,
            {
                let five = place_dense(m, b, r, &mut off);
                row.push(five);
                assert(dense_layer(b as int, r as int, 5) == dense_layer(b as int, r + 1, 0));
                r += 1;
            }
            blocks.push(row);
        }
        let ghost nb = m.blocks@.len() as int;
        proof {
            lemma_next(m, 15 * nb + 1, n);
            lemma_next(m, 15 * nb + 2, n);
            lemma_next(m, 15 * nb + 3, n);
            lemma_next(m, 15 * nb + 4, n);
            lemma_next(m, 15 * nb + 5, n);
        }
        let conv_body = place(&mut off, &m.conv_body);
        let conv_up1 = place(&mut off, &m.conv_up1);
        let conv_up2 = place(&mut off, &m.conv_up2);
        let conv_hr = place(&mut off, &m.conv_hr);
        let conv_last = place(&mut off, &m.conv_last);
        let r = Layout {
            conv_first,
            blocks,
            conv_body,
            conv_up1,
            conv_up2,
            conv_hr,
            conv_last,
            floats: off,
        };
        proof {
            assert forall|l: int| 0 <= l < n implies located(m, l, #[trigger] r.loc(l)) by {
                if 0 < l <= 15 * nb {
                    let (b, q, k) = ((l - 1) / 15, ((l - 1) % 15) / 5, (l - 1) % 5);
                    assert(dense_layer(b, q, k) == l);
                    assert(located(m, dense_layer(b, q, k), r.blocks@[b]@[q]@[k]));
                }
            }
        }
        r
    }
}

/// The convolutions' slots follow one another: no two of them overlap, and each
/// lies inside the buffer.
pub proof fn slots_are_disjoint<T>(m: &Model<T>, lay: &Layout, i: int, j: int)
    requires
        lay.lays(m),
        0 <= i < j < 15 * m.blocks@.len() + 6,
    ensures
        lay.loc(i).w + m.layer(i).w@.len() == lay.loc(i).b,
        lay.loc(i).b + m.layer(i).bias@.len() <= lay.loc(j).w,
        lay.loc(j).b + m.layer(j).bias@.len() <= lay.floats,
{
    let n = 15 * m.blocks@.len() + 6;
    assert(located(m, i, lay.loc(i)) && located(m, j, lay.loc(j)));
    lemma_next(m, i, j as nat);
    lemma_next(m, j, n);
}

/// What is packed of the first convolutions is what stands first of all.
proof fn lemma_packed<T>(m: &Model<T>, i: nat, n: nat)
    requires
        i <= n,
    ensures
        packed(m, n).len() == params(m, n),
        params(m, i) <= params(m, n),
        packed(m, n).take(params(m, i)) == packed(m, i),
    decreases n,
{
    lemma_params(m, 0, i);
    if i < n {
        lemma_packed(m, i, (n - 1) as nat);
        let c = m.layer(n - 1);
        assert(packed(m, n).take(params(m, i)) =~= packed(m, (n - 1) as nat).take(params(m, i)));
    } else {
        if n > 0 {
            lemma_packed(m, (n - 1) as nat, (n - 1) as nat);
        }
        assert(packed(m, n).take(params(m, n)) =~= packed(m, n));
    }
}

/// A launch finds its own parameters: at the offsets of convolution `l` the
/// buffer holds exactly its weights and its biases.
pub proof fn launch_finds_its_weights<T>(m: &Model<T>, lay: &Layout, l: int)
    requires
        lay.lays(m),
        0 <= l < 15 * m.blocks@.len() + 6,
    ensures
        ({
            let (all, at, c) = (packed(m, 15 * m.blocks@.len() + 6), lay.loc(l), m.layer(l));
            &&& all.len() == lay.floats
            &&& at.b + c.bias@.len() <= all.len()
            &&& all.subrange(at.w as int, at.w + c.w@.len()) == c.w@
            &&& all.subrange(at.b as int, at.b + c.bias@.len()) == c.bias@
        }),
{
    let n = 15 * m.blocks@.len() + 6;
    let (all, at, c) = (packed(m, n), lay.loc(l), m.layer(l));
    assert(located(m, l, at));
    let k = (l + 1) as nat;
    assert(k - 1 == l);
    lemma_packed(m, k, n);
    lemma_packed(m, (k - 1) as nat, n);
    lemma_next(m, l, n);
    let part = packed(m, k);
    assert(part == packed(m, (k - 1) as nat) + c.w@ + c.bias@);
    lemma_packed(m, (k - 1) as nat, (k - 1) as nat);
    assert forall|i: int| 0 <= i < part.len() implies all[i] == part[i] by {
        assert(all.take(params(m, k))[i] == part[i]);
    }
    assert(all.subrange(at.w as int, at.w + c.w@.len()) =~= c.w@);
    assert(all.subrange(at.b as int, at.b + c.bias@.len()) =~= c.bias@);
}

/// Writes one convolution's parameters at its place.
fn put<T: Copy>(host: &mut Vec<T>, loc: &ConvLoc, m: &Model<T>, c: &Conv<T>, Ghost(l): Ghost<int>)
    requires
        0 <= l < 15 * m.blocks@.len() + 6,
        *c == m.layer(l),
        located(m, l, *loc),
        old(host)@.len() == params(m, 15 * m.blocks@.len() + 6),
        old(host)@.take(params(m, l as nat)) == packed(m, l as nat),
    ensures
        final(host)@.len() == old(host)@.len(),
        final(host)@.take(params(m, (l + 1) as nat)) == packed(m, (l + 1) as nat),
{
    proof {
        lemma_next(m, l, 15 * m.blocks@.len() + 6);
    }
    write_at(host.as_mut_slice(), loc.w, c.w.as_slice());
    write_at(host.as_mut_slice(), loc.b, c.bias.as_slice());
    proof {
        let k = (l + 1) as nat;
        assert(k - 1 == l);
        lemma_packed(m, (k - 1) as nat, (k - 1) as nat);
        let was = old(host)@;
        assert forall|i: int| 0 <= i < params(m, l as nat) implies was[i] == packed(
            m,
            l as nat,
        )[i] by {
            assert(was.take(params(m, l as nat))[i] == was[i]);
        }
        assert(host@.take(params(m, k)) =~= packed(m, k));
    }
}

/// The weight buffer as it is uploaded: every convolution's parameters at its
/// place.
pub fn pack<T: Copy>(m: &Model<T>, lay: &Layout, fill: T) -> (host: Vec<T>)
    requires
        lay.lays(m),
    ensures
        host@ == packed(m, 15 * m.blocks@.len() + 6),
{
    let ghost n = 15 * m.blocks@.len() + 6;
    let ghost nb = m.blocks@.len() as int;
    let mut host = filled(lay.floats, fill);
    assert(host@.take(0) =~= packed(m, 0));
    assert(located(m, 0, lay.loc(0)));
    put(&mut host, &lay.conv_first, m, &m.conv_first, Ghost(0));
    let mut b: usize = 0;
    while b < m.blocks.len()
        invariant
            lay.lays(m),
            n == 15 * m.blocks@.len() + 6,
            b <= m.blocks@.len(),
            host@.len() == params(m, n),
            host@.take(params(m, (1 + 15 * b) as nat)) == packed(m, (1 + 15 * b) as nat),
        decreases m.blocks@.len() - b,
    {
        let mut i: usize = 0;
        while i < 15
            invariant
                lay.lays(m),
                n == 15 * m.blocks@.len() + 6,
                b < m.blocks@.len(),
                i <= 15,
                host@.len() == params(m, n),
                host@.take(params(m, (1 + 15 * b + i) as nat)) == packed(
                    m,
                    (1 + 15 * b + i) as nat,
                ),
            decreases 15 - i,
        {
            let (r, k) = (i / 5, i % 5);
            let ghost l = 1 + 15 * b + i;
            proof {
                m.lemma_dense_layer(b as int, r as int, k as int);
                lemma_dense_number(b as int, r as int, k as int);
                assert(dense_layer(b as int, r as int, k as int) == l);
                assert(located(m, l, lay.loc(l)));
                assert(lay.blocks@[b as int]@.len() == 3);
                assert(lay.blocks@[b as int]@[r as int]@.len() == 5);
            }
            put(&mut host, &lay.blocks[b][r][k], m, &m.blocks[b].rdbs[r].convs[k], Ghost(l));
            i += 1;
        }
        b += 1;
    }
    proof {
        assert(located(m, 15 * nb + 1, lay.loc(15 * nb + 1)));
        assert(located(m, 15 * nb + 2, lay.loc(15 * nb + 2)));
        assert(located(m, 15 * nb + 3, lay.loc(15 * nb + 3)));
        assert(located(m, 15 * nb + 4, lay.loc(15 * nb + 4)));
        assert(located(m, 15 * nb + 5, lay.loc(15 * nb + 5)));
    }
    put(&mut host, &lay.conv_body, m, &m.conv_body, Ghost(15 * nb + 1));
    put(&mut host, &lay.conv_up1, m, &m.conv_up1, Ghost(15 * nb + 2));
    put(&mut host, &lay.conv_up2, m, &m.conv_up2, Ghost(15 * nb + 3));
    put(&mut host, &lay.conv_hr, m, &m.conv_hr, Ghost(15 * nb + 4));
    put(&mut host, &lay.conv_last, m, &m.conv_last, Ghost(15 * nb + 5));
    assert(host@.take(params(m, n)) =~= host@);
    host
}

/// Adds one convolution's bytes, four to a value.
fn add_bytes<T>(n: &mut usize, c: &Conv<T>)
    requires
        *old(n) + 4 * (c.w@.len() + c.bias@.len()) <= usize::MAX,
    ensures
        *final(n) == *old(n) + 4 * (c.w@.len() + c.bias@.len()),
{
    *n = *n + (c.w.len() + c.bias.len()) * 4;
}

impl<T> Model<T> {
    /// Bytes of the weights and biases in single precision.
    pub fn weight_bytes(&self) -> (r: usize)
        requires
            4 * params(self, 15 * self.blocks@.len() + 6) <= usize::MAX,
        ensures
            r == 4 * params(self, 15 * self.blocks@.len() + 6),
    {
        let ghost n = 15 * self.blocks@.len() + 6;
        let ghost nb = self.blocks@.len() as int;
        let mut bytes: usize = 0;
        proof {
            lemma_next(self, 0, n);
        }
        add_bytes(&mut bytes, &self.conv_first);
        let mut b: usize = 0;
        while b < self.blocks.len()
            invariant
                n == 15 * self.blocks@.len() + 6,
                4 * params(self, n) <= usize::MAX,
                b <= self.blocks@.len(),
                bytes == 4 * params(self, (1 + 15 * b) as nat),
            decreases self.blocks@.len() - b,
        {
            let mut i: usize = 0;
            while i < 15
                invariant
                    n == 15 * self.blocks@.len() + 6,
                    4 * params(self, n) <= usize::MAX,
                    b < self.blocks@.len(),
                    i <= 15,
                    bytes == 4 * params(self, (1 + 15 * b + i) as nat),
                decreases 15 - i,
            {
                proof {
                    self.lemma_dense_layer(b as int, i as int / 5, i as int % 5);
                    assert(dense_layer(b as int, i as int / 5, i as int % 5) == 1 + 15 * b + i);
                    lemma_next(self, 1 + 15 * b + i, n);
                }
                add_bytes(&mut bytes, &self.blocks[b].rdbs[i / 5].convs[i % 5]);
                i += 1;
            }
            b += 1;
        }
        proof {
            lemma_next(self, 15 * nb + 1, n);
            lemma_next(self, 15 * nb + 2, n);
            lemma_next(self, 15 * nb + 3, n);
            lemma_next(self, 15 * nb + 4, n);
            lemma_next(self, 15 * nb + 5, n);
        }
        add_bytes(&mut bytes, &self.conv_body);
        add_bytes(&mut bytes, &self.conv_up1);
        add_bytes(&mut bytes, &self.conv_up2);
        add_bytes(&mut bytes, &self.conv_hr);
        add_bytes(&mut bytes, &self.conv_last);
        bytes
    }
}

/// The weight buffer takes exactly the model's bytes.
pub proof fn buffer_is_weight_bytes<T>(m: &Model<T>, lay: &Layout)
    requires
        lay.lays(m),
    ensures
        4 * lay.floats == 4 * params(m, 15 * m.blocks@.len() + 6),
        packed(m, 15 * m.blocks@.len() + 6).len() == lay.floats,
{
    let n = 15 * m.blocks@.len() + 6;
    lemma_packed(m, n, n);
}

impl Layout {
    /// Where convolution `l` stands.
    pub fn at(&self, l: usize) -> (r: ConvLoc)
        requires
            self.nested(),
            l < 15 * self.blocks@.len() + 6,
        ensures
            r == self.loc(l as int),
    {
        if l == 0 {
            return self.conv_first;
        }
        let (b, i) = ((l - 1) / 15, (l - 1) % 15);
        if b < self.blocks.len() {
            assert(self.blocks@[b as int]@.len() == 3);
            assert(self.blocks@[b as int]@[(i / 5) as int]@.len() == 5);
            return self.blocks[b][i / 5][i % 5];
        }
        assert(b == self.blocks@.len());
        match i {
            0 => self.conv_body,
            1 => self.conv_up1,
            2 => self.conv_up2,
            3 => self.conv_hr,
            _ => self.conv_last,
        }
    }
}

} // verus!
