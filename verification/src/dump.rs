//! Planes as raw files: the channels, rows and columns, and then the values, each
//! four bytes with the low one first.

use vstd::prelude::*;

use crate::plane::Plane;

verus! {

/// The bits of a value.
pub trait Bits<T> {
    /// The bits of `v` in single precision.
    fn bits(&self, v: T) -> u32;
}

/// `b` is the bits of `v`.
pub open spec fn bits_are<T, B: Bits<T>>(ops: &B, v: T, b: u32) -> bool {
    call_ensures(<B as Bits<T>>::bits, (ops, v), b)
}

/// The four bytes of `n`, the low one first.
pub open spec fn le(n: int) -> Seq<u8> {
    seq![
        (n % 256) as u8,
        ((n / 256) % 256) as u8,
        ((n / 65536) % 256) as u8,
        ((n / 16777216) % 256) as u8,
    ]
}

/// The bytes of all numbers, one after another.
pub open spec fn le_all(v: Seq<u32>) -> Seq<u8>
    decreases v.len(),
{
    if v.len() == 0 {
        Seq::empty()
    } else {
        le_all(v.drop_last()) + le(v.last() as int)
    }
}

/// The header of a plane. A size is written by its low 32 bits.
pub open spec fn header<T>(p: &Plane<T>) -> Seq<u8> {
    le(p.c as int % 0x1_0000_0000) + le(p.h as int % 0x1_0000_0000) + le(
        p.w as int % 0x1_0000_0000,
    )
}

/// `bits` are the bits of the plane's values, in order.
pub open spec fn bits_of<T, B: Bits<T>>(ops: &B, p: &Plane<T>, bits: Seq<u32>) -> bool {
    &&& bits.len() == p.data@.len()
    &&& forall|i: int| 0 <= i < bits.len() ==> bits_are(ops, p.data@[i], #[trigger] bits[i])
}

/// Appends the four bytes of `n`.
fn push_le(out: &mut Vec<u8>, n: u32)
    ensures
        final(out)@ == old(out)@ + le(n as int),
{
    out.push((n % 256) as u8);
    out.push(((n / 256) % 256) as u8);
    out.push(((n / 65536) % 256) as u8);
    out.push(((n / 16777216) % 256) as u8);
    assert(out@ =~= old(out)@ + le(n as int));
}

/// A plane as the bytes of its file.
pub fn dump_bytes<T: Copy, B: Bits<T>>(ops: &B, p: &Plane<T>) -> (out: Vec<u8>)
    ensures
        exists|bits: Seq<u32>|
            #[trigger] bits_of(ops, p, bits) && out@ == header(p) + le_all(bits),
{
    let mut out: Vec<u8> = Vec::new();
    push_le(&mut out, (p.c as u64 % 0x1_0000_0000) as u32);
    push_le(&mut out, (p.h as u64 % 0x1_0000_0000) as u32);
    push_le(&mut out, (p.w as u64 % 0x1_0000_0000) as u32);
    assert(out@ =~= header(p));
    let ghost mut bits: Seq<u32> = Seq::empty();
    assert(out@ =~= header(p) + le_all(bits));
    let mut i: usize = 0;
    while i < p.data.len()
        invariant
            i <= p.data@.len(),
            bits.len() == i,
            forall|j: int| 0 <= j < i ==> bits_are(ops, p.data@[j], #[trigger] bits[j]),
            out@ == header(p) + le_all(bits),
        decreases p.data@.len() - i,
    {
        let b = ops.bits(p.data[i]);
        assert(bits_are(ops, p.data@[i as int], b));
        push_le(&mut out, b);
        proof {
            let next = bits.push(b);
            assert(next.drop_last() =~= bits);
            assert(out@ =~= header(p) + le_all(next));
            bits = next;
        }
        i += 1;
    }
    assert(bits_of(ops, p, bits));
    out
}

/// The number of four bytes, the low one first.
pub open spec fn le_value(b: Seq<u8>) -> int {
    b[0] + 256 * b[1] + 65536 * b[2] + 16777216 * b[3]
}

/// Every number can be read back from its four bytes.
pub proof fn bytes_read_back(n: u32)
    ensures
        le(n as int).len() == 4,
        le_value(le(n as int)) == n,
{
    let n = n as int;
    let b = le(n);
    assert(b[0] == n % 256 && b[1] == (n / 256) % 256);
    assert(b[2] == (n / 65536) % 256 && b[3] == (n / 16777216) % 256);
    assert(n / 256 / 256 == n / 65536 && n / 65536 / 256 == n / 16777216);
    assert(n == n % 256 + 256 * (n / 256));
    assert(n / 256 == (n / 256) % 256 + 256 * (n / 65536));
    assert(n / 65536 == (n / 65536) % 256 + 256 * (n / 16777216));
}

/// Value `i` of a dumped plane can be read back from its place in the file.
pub proof fn dump_reads_back<T>(p: &Plane<T>, bits: Seq<u32>, i: int)
    requires
        0 <= i < bits.len(),
    ensures
        header(p).len() == 12,
        (header(p) + le_all(bits)).len() == 12 + 4 * bits.len(),
        le_value((header(p) + le_all(bits)).subrange(12 + 4 * i, 16 + 4 * i)) == bits[i],
{
    lemma_le_all(bits, i);
    bytes_read_back(bits[i]);
    assert((header(p) + le_all(bits)).subrange(12 + 4 * i, 16 + 4 * i) =~= le_all(bits).subrange(
        4 * i,
        4 * i + 4,
    ));
}

/// The bytes of value `i`.
proof fn lemma_le_all(bits: Seq<u32>, i: int)
    requires
        0 <= i < bits.len(),
    ensures
        le_all(bits).len() == 4 * bits.len(),
        le_all(bits).subrange(4 * i, 4 * i + 4) == le(bits[i] as int),
    decreases bits.len(),
{
    let front = bits.drop_last();
    if i < front.len() {
        lemma_le_all(front, i);
        assert(le_all(bits).subrange(4 * i, 4 * i + 4) =~= le_all(front).subrange(
            4 * i,
            4 * i + 4,
        ));
    } else {
        if front.len() > 0 {
            lemma_le_all(front, 0);
        }
        assert(le_all(front).len() == 4 * i);
        assert(le_all(bits) == le_all(front) + le(bits[i] as int));
        assert(le_all(bits).subrange(4 * i, 4 * i + 4) =~= le(bits[i] as int));
    }
}

/// The file of a plane, in a directory.
pub fn dump_path(dir: &str, name: &str) -> (r: String)
    ensures
        r@ == dir@ + "/"@ + name@ + ".f32"@,
{
    let mut s = dir.to_owned();
    s.append("/");
    s.append(name);
    s.append(".f32");
    s
}

} // verus!
