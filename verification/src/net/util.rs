//! Network byte order integers and the Internet checksum.
use vstd::prelude::*;

verus! {

/// The value of a 16-bit word with its two bytes exchanged.
pub open spec fn swap16(v: u16) -> u16 {
    (((v & 0xff) << 8u16) | (v >> 8u16)) as u16
}

/// The value of a 32-bit word with its four bytes reversed.
pub open spec fn swap32(v: u32) -> u32 {
    (((v & 0xff) << 24u32) | (((v >> 8u32) & 0xff) << 16u32) | (((v >> 16u32) & 0xff) << 8u32) | (v
        >> 24u32)) as u32
}

/// Exchanging the bytes twice gives the word back.
pub proof fn lemma_swap16_involutive(v: u16)
    ensures
        swap16(swap16(v)) == v,
{
    assert((((((v & 0xff) << 8u16) | (v >> 8u16)) & 0xff) << 8u16) | ((((v & 0xff) << 8u16) | (v
        >> 8u16)) >> 8u16) == v) by (bit_vector);
}

/// Reversing the bytes twice gives the word back.
pub proof fn lemma_swap32_involutive(v: u32)
    ensures
        swap32(swap32(v)) == v,
{
    let w = swap32(v);
    assert(w == (((v & 0xff) << 24u32) | (((v >> 8u32) & 0xff) << 16u32) | (((v >> 16u32) & 0xff)
        << 8u32) | (v >> 24u32)));
    assert(((((v & 0xff) << 24u32) | (((v >> 8u32) & 0xff) << 16u32) | (((v >> 16u32) & 0xff)
        << 8u32) | (v >> 24u32)) & 0xff) << 24u32 | ((((((v & 0xff) << 24u32) | (((v >> 8u32)
        & 0xff) << 16u32) | (((v >> 16u32) & 0xff) << 8u32) | (v >> 24u32)) >> 8u32) & 0xff)
        << 16u32) | ((((((v & 0xff) << 24u32) | (((v >> 8u32) & 0xff) << 16u32) | (((v >> 16u32)
        & 0xff) << 8u32) | (v >> 24u32)) >> 16u32) & 0xff) << 8u32) | ((((v & 0xff) << 24u32) | (((v
        >> 8u32) & 0xff) << 16u32) | (((v >> 16u32) & 0xff) << 8u32) | (v >> 24u32)) >> 24u32)
        == v) by (bit_vector);
}

fn swap_u16(v: u16) -> (r: u16)
    ensures
        r == swap16(v),
{
    ((v & 0xff) << 8u16) | (v >> 8u16)
}

fn swap_u32(v: u32) -> (r: u32)
    ensures
        r == swap32(v),
{
    ((v & 0xff) << 24u32) | (((v >> 8u32) & 0xff) << 16u32) | (((v >> 16u32) & 0xff) << 8u32) | (v
        >> 24u32)
}

/// A 32-bit integer held in network byte order: the field is the word as a
/// little-endian machine reads the four bytes that travel on the wire.
#[derive(Debug, Default, Copy, Clone)]
pub struct NetU32(pub u32);

/// A 16-bit integer held in network byte order.
#[derive(Debug, Default, Copy, Clone)]
pub struct NetU16(pub u16);

/// An 8-bit integer; one byte has no order to change.
#[derive(Debug, Default, Copy, Clone)]
pub struct NetU8(pub u8);

impl NetU32 {
    /// The host value that this network word stands for.
    pub open spec fn spec_value(self) -> u32 {
        swap32(self.0)
    }

    /// Wraps a host value.
    pub fn new(v: u32) -> (r: NetU32)
        ensures
            r.0 == swap32(v),
            r.spec_value() == v,
    {
        proof {
            lemma_swap32_involutive(v);
        }
        NetU32(swap_u32(v))
    }

    /// The host value.
    pub fn value(self) -> (r: u32)
        ensures
            r == self.spec_value(),
    {
        swap_u32(self.0)
    }

    /// The word as it is stored, in network order.
    pub fn net_value(self) -> (r: u32)
        ensures
            r == self.0,
    {
        self.0
    }
}

impl NetU16 {
    /// The host value that this network word stands for.
    pub open spec fn spec_value(self) -> u16 {
        swap16(self.0)
    }

    /// Wraps a host value.
    pub fn new(v: u16) -> (r: NetU16)
        ensures
            r.0 == swap16(v),
            r.spec_value() == v,
    {
        proof {
            lemma_swap16_involutive(v);
        }
        NetU16(swap_u16(v))
    }

    /// The host value.
    pub fn value(self) -> (r: u16)
        ensures
            r == self.spec_value(),
    {
        swap_u16(self.0)
    }

    /// The word as it is stored, in network order.
    pub fn net_value(self) -> (r: u16)
        ensures
            r == self.0,
    {
        self.0
    }

    /// The two bytes of this word in the order they travel on the wire.
    pub fn to_bytes(self) -> (r: [u8; 2])
        ensures
            r@ == be16(self.spec_value()),
    {
        let v = self.value();
        [(v >> 8u16) as u8, (v & 0xff) as u8]
    }

    /// The word whose wire bytes are `hi` followed by `lo`.
    pub fn from_bytes(hi: u8, lo: u8) -> (r: NetU16)
        ensures
            r.spec_value() == be16_value(hi, lo),
    {
        NetU16::new(((hi as u16) << 8u16) | (lo as u16))
    }
}

impl NetU8 {
    /// The host value.
    pub open spec fn spec_value(self) -> u8 {
        self.0
    }

    /// Wraps a host value.
    pub fn new(v: u8) -> (r: NetU8)
        ensures
            r.0 == v,
            r.spec_value() == v,
    {
        NetU8(v)
    }

    /// The host value.
    pub fn value(self) -> (r: u8)
        ensures
            r == self.0,
    {
        self.0
    }

    /// The byte as it is stored.
    pub fn net_value(self) -> (r: u8)
        ensures
            r == self.0,
    {
        self.0
    }
}

/// The big-endian bytes of a 16-bit value.
pub open spec fn be16(v: u16) -> Seq<u8> {
    seq![(v >> 8u16) as u8, (v & 0xff) as u8]
}

/// The big-endian bytes of a 32-bit value.
pub open spec fn be32(v: u32) -> Seq<u8> {
    seq![(v >> 24u32) as u8, ((v >> 16u32) & 0xff) as u8, ((v >> 8u32) & 0xff) as u8, (v & 0xff) as u8]
}

/// The 16-bit value of two big-endian bytes.
pub open spec fn be16_value(hi: u8, lo: u8) -> u16 {
    (((hi as u16) << 8u16) | (lo as u16)) as u16
}

/// The 32-bit value of four big-endian bytes.
pub open spec fn be32_value(b0: u8, b1: u8, b2: u8, b3: u8) -> u32 {
    (((b0 as u32) << 24u32) | ((b1 as u32) << 16u32) | ((b2 as u32) << 8u32) | (b3 as u32)) as u32
}

/// Reading back the bytes of a 16-bit value gives the value.
pub proof fn lemma_be16_roundtrip(v: u16)
    ensures
        be16_value(be16(v)[0], be16(v)[1]) == v,
{
    let hi = (v >> 8u16) as u8;
    let lo = (v & 0xff) as u8;
    assert(((((v >> 8u16) as u8) as u16) << 8u16) | (((v & 0xff) as u8) as u16) == v)
        by (bit_vector);
}

/// Reading back the bytes of a 32-bit value gives the value.
pub proof fn lemma_be32_roundtrip(v: u32)
    ensures
        be32_value(be32(v)[0], be32(v)[1], be32(v)[2], be32(v)[3]) == v,
{
    assert(((((v >> 24u32) as u8) as u32) << 24u32) | (((((v >> 16u32) & 0xff) as u8) as u32)
        << 16u32) | (((((v >> 8u32) & 0xff) as u8) as u32) << 8u32) | (((v & 0xff) as u8) as u32)
        == v) by (bit_vector);
}

/// Writing the bytes of a value read from two bytes gives the bytes back.
pub proof fn lemma_be16_bytes_roundtrip(hi: u8, lo: u8)
    ensures
        be16(be16_value(hi, lo)) == seq![hi, lo],
{
    assert((((((hi as u16) << 8u16) | (lo as u16)) as u16) >> 8u16) as u8 == hi) by (bit_vector);
    assert((((((hi as u16) << 8u16) | (lo as u16)) as u16) & 0xff) as u8 == lo) by (bit_vector);
    assert(be16(be16_value(hi, lo)) =~= seq![hi, lo]);
}

/// Writing the bytes of a value read from four bytes gives the bytes back.
pub proof fn lemma_be32_bytes_roundtrip(b0: u8, b1: u8, b2: u8, b3: u8)
    ensures
        be32(be32_value(b0, b1, b2, b3)) == seq![b0, b1, b2, b3],
{
    let v = be32_value(b0, b1, b2, b3);
    assert(v == (((b0 as u32) << 24u32) | ((b1 as u32) << 16u32) | ((b2 as u32) << 8u32) | (b3 as u32)));
    assert(((((b0 as u32) << 24u32) | ((b1 as u32) << 16u32) | ((b2 as u32) << 8u32) | (b3 as u32)) >> 24u32) as u8 == b0) by (bit_vector);
    assert((((((b0 as u32) << 24u32) | ((b1 as u32) << 16u32) | ((b2 as u32) << 8u32) | (b3 as u32)) >> 16u32) & 0xff) as u8 == b1) by (bit_vector);
    assert((((((b0 as u32) << 24u32) | ((b1 as u32) << 16u32) | ((b2 as u32) << 8u32) | (b3 as u32)) >> 8u32) & 0xff) as u8 == b2) by (bit_vector);
    assert(((((b0 as u32) << 24u32) | ((b1 as u32) << 16u32) | ((b2 as u32) << 8u32) | (b3 as u32)) & 0xff) as u8 == b3) by (bit_vector);
    assert(be32(v) =~= seq![b0, b1, b2, b3]);
}

/// Two 16-bit words with the same wire bytes are the same word.
pub proof fn lemma_net16_bytes_injective(a: NetU16, b: NetU16)
    requires
        be16(a.spec_value()) == be16(b.spec_value()),
    ensures
        a == b,
{
    lemma_be16_roundtrip(a.spec_value());
    lemma_be16_roundtrip(b.spec_value());
    assert(be16(a.spec_value())[0] == be16(b.spec_value())[0]);
    assert(be16(a.spec_value())[1] == be16(b.spec_value())[1]);
    lemma_swap16_involutive(a.0);
    lemma_swap16_involutive(b.0);
}

/// Two 32-bit words with the same wire bytes are the same word.
pub proof fn lemma_net32_bytes_injective(a: NetU32, b: NetU32)
    requires
        be32(a.spec_value()) == be32(b.spec_value()),
    ensures
        a == b,
{
    lemma_be32_roundtrip(a.spec_value());
    lemma_be32_roundtrip(b.spec_value());
    assert(be32(a.spec_value())[0] == be32(b.spec_value())[0]);
    assert(be32(a.spec_value())[1] == be32(b.spec_value())[1]);
    assert(be32(a.spec_value())[2] == be32(b.spec_value())[2]);
    assert(be32(a.spec_value())[3] == be32(b.spec_value())[3]);
    lemma_swap32_involutive(a.0);
    lemma_swap32_involutive(b.0);
}

/// In `x + y == u + v` with `x` and `u` of one length, the parts agree.
pub proof fn lemma_concat_split(x: Seq<u8>, y: Seq<u8>, u: Seq<u8>, v: Seq<u8>)
    requires
        x + y == u + v,
        x.len() == u.len(),
    ensures
        x == u,
        y == v,
{
    assert(x =~= (x + y).take(x.len() as int));
    assert(u =~= (u + v).take(u.len() as int));
    assert(y =~= (x + y).skip(x.len() as int));
    assert(v =~= (u + v).skip(u.len() as int));
}

} // verus!
pub mod checksum;

verus! {

/// Appends the big-endian bytes of a 16-bit value.
pub fn push_be16(out: &mut Vec<u8>, x: u16)
    ensures
        final(out)@ == old(out)@ + be16(x),
{
    out.push((x >> 8u16) as u8);
    out.push((x & 0xff) as u8);
    assert(final(out)@ =~= old(out)@ + be16(x));
}

/// Appends the big-endian bytes of a 32-bit value.
pub fn push_be32(out: &mut Vec<u8>, x: u32)
    ensures
        final(out)@ == old(out)@ + be32(x),
{
    out.push((x >> 24u32) as u8);
    out.push(((x >> 16u32) & 0xff) as u8);
    out.push(((x >> 8u32) & 0xff) as u8);
    out.push((x & 0xff) as u8);
    assert(final(out)@ =~= old(out)@ + be32(x));
}

/// Appends every byte of a slice.
pub fn push_all(out: &mut Vec<u8>, s: &[u8])
    ensures
        final(out)@ == old(out)@ + s@,
{
    let mut i: usize = 0;
    while i < s.len()
        invariant
            i <= s.len(),
            out@ == old(out)@ + s@.take(i as int),
        decreases s.len() - i,
    {
        out.push(s[i]);
        i = i + 1;
        assert(out@ =~= old(out)@ + s@.take(i as int));
    }
    assert(s@.take(s.len() as int) =~= s@);
}

/// The 16-bit value of the two big-endian bytes at `off`.
pub fn read_be16(b: &[u8], off: usize) -> (r: u16)
    requires
        off + 2 <= b.len(),
    ensures
        r == be16_value(b@[off as int], b@[off + 1]),
{
    ((b[off] as u16) << 8u16) | (b[off + 1] as u16)
}

/// The 32-bit value of the four big-endian bytes at `off`.
pub fn read_be32(b: &[u8], off: usize) -> (r: u32)
    requires
        off + 4 <= b.len(),
    ensures
        r == be32_value(b@[off as int], b@[off + 1], b@[off + 2], b@[off + 3]),
{
    ((b[off] as u32) << 24u32) | ((b[off + 1] as u32) << 16u32) | ((b[off + 2] as u32) << 8u32) | (
    b[off + 3] as u32)
}

} // verus!

verus! {

/// `frame` with the bytes from `off` on replaced by `src`.
pub open spec fn overwrite(frame: Seq<u8>, off: int, src: Seq<u8>) -> Seq<u8> {
    frame.take(off) + src + frame.skip(off + src.len())
}

/// Copies `src` into `frame` starting at `off`.
pub fn write_bytes_at(frame: &mut Vec<u8>, off: usize, src: &[u8])
    requires
        off + src.len() <= old(frame)@.len(),
    ensures
        final(frame)@ == overwrite(old(frame)@, off as int, src@),
{
    let mut i: usize = 0;
    while i < src.len()
        invariant
            i <= src.len(),
            off + src.len() <= old(frame)@.len(),
            frame@.len() == old(frame)@.len(),
            frame.len() == old(frame)@.len(),
            forall|j: int| 0 <= j < i ==> #[trigger] frame@[off + j] == src@[j],
            forall|j: int|
                0 <= j < frame@.len() && !(off <= j < off + i) ==> #[trigger] frame@[j] == old(
                    frame,
                )@[j],
        decreases src.len() - i,
    {
        frame.set(off + i, src[i]);
        i = i + 1;
    }
    assert forall|j: int| 0 <= j < frame@.len() implies #[trigger] frame@[j] == overwrite(
        old(frame)@,
        off as int,
        src@,
    )[j] by {
        if off <= j < off + src.len() {
            assert(frame@[off + (j - off)] == src@[j - off]);
        }
    }
    assert(frame@ =~= overwrite(old(frame)@, off as int, src@));
}

} // verus!
