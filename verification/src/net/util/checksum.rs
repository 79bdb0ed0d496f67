//! The Internet checksum (RFC 1071): a ones-complement sum of 16-bit words.
use vstd::prelude::*;
use crate::net::util::{NetU16, swap16, lemma_swap16_involutive};

verus! {

/// The big-endian 16-bit word at word index `i` of `data`.
pub open spec fn word_at(data: Seq<u8>, i: int) -> int {
    data[2 * i] as int * 256 + data[2 * i + 1] as int
}

/// The sum of the first `n` big-endian words of `data`.
pub open spec fn words_sum(data: Seq<u8>, n: nat) -> int
    decreases n,
{
    if n == 0 {
        0
    } else {
        words_sum(data, (n - 1) as nat) + word_at(data, n - 1)
    }
}

/// The plain (not yet folded) sum of `data` as 16-bit big-endian words; a
/// trailing odd byte counts as the high byte of a last word.
pub open spec fn raw_sum(data: Seq<u8>) -> int {
    words_sum(data, data.len() / 2) + if data.len() % 2 == 1 {
        data[data.len() - 1] as int * 256
    } else {
        0
    }
}

/// Folding the carries of a sum back into its low 16 bits, until none are left.
pub open spec fn fold_carries(sum: int) -> int
    decreases sum,
{
    if sum < 0x10000 {
        sum
    } else {
        fold_carries(sum % 0x10000 + sum / 0x10000)
    }
}

/// The checksum word of a plain sum: the complement of its folded value.
pub open spec fn checksum_of(sum: int) -> u16 {
    !(fold_carries(sum) as u16)
}

/// The sum of the values of a sequence of 32-bit partial sums.
pub open spec fn sum_u32s(a: Seq<u32>) -> int
    decreases a.len(),
{
    if a.len() == 0 {
        0
    } else {
        sum_u32s(a.drop_last()) + a.last() as int
    }
}

proof fn lemma_words_sum_monotone(data: Seq<u8>, i: nat, j: nat)
    requires
        i <= j,
        2 * j <= data.len(),
    ensures
        words_sum(data, i) <= words_sum(data, j),
    decreases j - i,
{
    if i < j {
        lemma_words_sum_monotone(data, i, (j - 1) as nat);
    }
}

/// A folded sum is at most 16 bits wide.
pub proof fn lemma_fold_carries_bound(sum: int)
    requires
        sum >= 0,
    ensures
        0 <= fold_carries(sum) < 0x10000,
    decreases sum,
{
    if sum >= 0x10000 {
        lemma_fold_carries_bound(sum % 0x10000 + sum / 0x10000);
    }
}

/// Folding the carries keeps a sum's remainder by 0xffff, gives at most
/// 0xffff, and gives zero only for zero: it is the ones-complement sum.
pub proof fn lemma_fold_carries_mod(sum: int)
    requires
        sum >= 0,
    ensures
        0 <= fold_carries(sum) <= 0xffff,
        fold_carries(sum) % 0xffff == sum % 0xffff,
        sum > 0 ==> fold_carries(sum) > 0,
    decreases sum,
{
    if sum >= 0x10000 {
        let q = sum / 0x10000;
        let r = sum % 0x10000;
        assert(sum == q * 0x10000 + r && 0 <= r < 0x10000 && q >= 1) by (nonlinear_arith)
            requires
                sum >= 0x10000,
                q == sum / 0x10000,
                r == sum % 0x10000,
        ;
        let y = r + q;
        assert(sum == q * 0xffff + y) by (nonlinear_arith)
            requires
                sum == q * 0x10000 + r,
                y == r + q,
        ;
        vstd::arithmetic::div_mod::lemma_mod_multiples_vanish(q, y, 0xffff);
        assert((q * 0xffff + y) % 0xffff == y % 0xffff) by {
            vstd::arithmetic::mul::lemma_mul_is_commutative(q, 0xffff);
        }
        lemma_fold_carries_mod(y);
    } else {
        if sum == 0xffff {
            assert(0xffffint % 0xffff == 0);
        }
    }
}

/// Two byte sequences that differ only in word `k` (below `n`) have word
/// sums over the first `n` words that differ by as much as that word.
pub proof fn lemma_words_sum_replace(a: Seq<u8>, b: Seq<u8>, n: nat, k: int)
    requires
        2 * n <= a.len(),
        a.len() == b.len(),
        0 <= k,
        forall|j: int| 0 <= j < n && j != k ==> word_at(a, j) == word_at(b, j),
    ensures
        words_sum(b, n) == words_sum(a, n) + if k < n { word_at(b, k) - word_at(a, k) } else { 0 },
    decreases n,
{
    if n > 0 {
        lemma_words_sum_replace(a, b, (n - 1) as nat, k);
    }
}

/// Writing the checksum of an even-length run of bytes into one of its
/// words that was zero makes the run pass the receiver's check: the
/// ones-complement sum of all its words is then 0xffff (all ones).
pub proof fn lemma_checksum_word_verifies(z: Seq<u8>, k: int)
    requires
        z.len() % 2 == 0,
        z.len() <= 0x10000,
        0 <= k,
        2 * k + 1 < z.len(),
        z[2 * k] == 0 && z[2 * k + 1] == 0,
    ensures
        ({
            let c = checksum_of(raw_sum(z));
            let w = z.update(2 * k, (c >> 8u16) as u8).update(2 * k + 1, (c & 0xff) as u8);
            fold_carries(raw_sum(w)) == 0xffff
        }),
{
    let sum = raw_sum(z);
    lemma_raw_sum_le(z);
    lemma_fold_carries_mod(sum);
    let f = fold_carries(sum);
    let c = checksum_of(sum);
    let fu = f as u16;
    assert(c == !fu);
    assert(!fu == 0xffffu16 - fu && (!fu) >> 8u16 == (!fu) / 256u16 && (!fu) & 0xffu16 == (!fu) % 256u16)
        by (bit_vector);
    assert(c as int == 0xffff - f);
    let hi = (c >> 8u16) as u8;
    let lo = (c & 0xff) as u8;
    let w = z.update(2 * k, hi).update(2 * k + 1, lo);
    assert(word_at(w, k) == c as int) by {
        assert(w[2 * k] == hi && w[2 * k + 1] == lo);
        assert((c / 256) * 256 + c % 256 == c as int) by (nonlinear_arith);
    }
    assert(word_at(z, k) == 0);
    assert forall|j: int| 0 <= j < z.len() / 2 && j != k implies word_at(z, j) == word_at(w, j) by {
        assert(z[2 * j] == w[2 * j] && z[2 * j + 1] == w[2 * j + 1]);
    }
    lemma_words_sum_replace(z, w, (z.len() / 2) as nat, k);
    assert(raw_sum(w) == sum + c as int);
    let t = sum + c as int;
    lemma_fold_carries_mod(t);
    assert(t % 0xffff == 0) by {
        vstd::arithmetic::div_mod::lemma_add_mod_noop(sum, 0xffff - f, 0xffff);
        vstd::arithmetic::div_mod::lemma_add_mod_noop(f, 0xffff - f, 0xffff);
    }
    assert(t > 0) by {
        if sum == 0 {
            assert(f == 0);
        }
    }
}

/// Sums the 16-bit big-endian words of `data`, a trailing odd byte counting as
/// the high byte of a last word.
pub fn calc_checksum(data: &[u8]) -> (r: u32)
    requires
        raw_sum(data@) <= u32::MAX,
    ensures
        r == raw_sum(data@),
{
    let mut sum: u32 = 0;
    let n: usize = data.len() / 2;
    let mut i: usize = 0;
    proof {
        lemma_words_sum_monotone(data@, 0, n as nat);
    }
    while i < n
        invariant
            n == data.len() / 2,
            i <= n,
            sum == words_sum(data@, i as nat),
            words_sum(data@, n as nat) <= u32::MAX,
        decreases n - i,
    {
        proof {
            lemma_words_sum_monotone(data@, (i + 1) as nat, n as nat);
        }
        let w = NetU16::from_bytes(data[2 * i], data[2 * i + 1]).value();
        assert(w as int == word_at(data@, i as int)) by {
            let hi = data@[2 * i as int];
            let lo = data@[2 * i as int + 1];
            assert((((hi as u16) << 8u16) | (lo as u16)) as int == hi as int * 256 + lo as int)
                by (bit_vector);
        }
        sum = sum + w as u32;
        i = i + 1;
    }
    if data.len() % 2 == 1 {
        assert(((data@[data.len() - 1] as u32) << 8u32) == data@[data.len() - 1] as int * 256) by {
            let b = data@[data.len() - 1];
            assert(((b as u32) << 8u32) == b as u32 * 256) by (bit_vector);
        }
        sum = sum + ((data[data.len() - 1] as u32) << 8u32);
    }
    sum
}

/// Folds the carries of a 32-bit sum into 16 bits and returns the complement,
/// the value that goes into a checksum field.
pub fn make(sum: u32) -> (r: NetU16)
    ensures
        r.spec_value() == checksum_of(sum as int),
{
    let mut sum = sum;
    let mut carry = sum >> 16u32;
    let ghost orig = sum as int;
    assert(carry == sum / 0x10000) by (bit_vector)
        requires
            carry == sum >> 16u32,
    ;
    while carry > 0
        invariant
            carry == sum / 0x10000,
            fold_carries(sum as int) == fold_carries(orig),
        decreases sum,
    {
        let lo = sum & 0x0000_ffff;
        assert(lo == sum % 0x10000) by (bit_vector)
            requires
                lo == sum & 0x0000_ffff,
        ;
        sum = lo;
        sum = sum + carry;
        carry = sum >> 16u32;
        assert(carry == sum / 0x10000) by (bit_vector)
            requires
                carry == sum >> 16u32,
        ;
    }
    assert(carry == sum >> 16u32 ==> carry == sum / 0x10000) by (bit_vector);
    NetU16::new(!(sum as u16))
}

/// Adds up partial sums and makes the checksum of the total.
pub fn make_combine(a: &[u32]) -> (r: NetU16)
    requires
        sum_u32s(a@) <= u32::MAX,
    ensures
        r.spec_value() == checksum_of(sum_u32s(a@)),
{
    let mut total: u32 = 0;
    let mut i: usize = 0;
    while i < a.len()
        invariant
            i <= a.len(),
            total == sum_u32s(a@.take(i as int)),
            sum_u32s(a@) <= u32::MAX,
        decreases a.len() - i,
    {
        proof {
            lemma_sum_u32s_prefix(a@, (i + 1) as int);
            assert(a@.take(i + 1).drop_last() =~= a@.take(i as int));
        }
        total = total + a[i];
        i = i + 1;
    }
    assert(a@.take(a.len() as int) =~= a@);
    make(total)
}

proof fn lemma_sum_u32s_prefix(a: Seq<u32>, k: int)
    requires
        0 <= k <= a.len(),
    ensures
        sum_u32s(a.take(k)) <= sum_u32s(a),
    decreases a.len(),
{
    if k < a.len() {
        assert(a.drop_last().take(k) =~= a.take(k));
        lemma_sum_u32s_prefix(a.drop_last(), k);
    } else {
        assert(a.take(k) =~= a);
    }
}

/// The plain sum of the bytes of a value laid out in memory.
pub fn calc_ref(r: &[u8]) -> (s: u32)
    requires
        raw_sum(r@) <= u32::MAX,
    ensures
        s == raw_sum(r@),
{
    calc_checksum(r)
}

/// The plain sum of the first `len` bytes of a region.
pub fn calc_ref_len(r: &[u8], len: usize) -> (s: u32)
    requires
        len <= r.len(),
        raw_sum(r@.take(len as int)) <= u32::MAX,
    ensures
        s == raw_sum(r@.take(len as int)),
{
    let mut v: Vec<u8> = Vec::new();
    let mut i: usize = 0;
    while i < len
        invariant
            i <= len <= r.len(),
            v@ == r@.take(i as int),
        decreases len - i,
    {
        v.push(r[i]);
        proof {
            assert(r@.take(i + 1) =~= r@.take(i as int).push(r@[i as int]));
        }
        i = i + 1;
    }
    calc_checksum(v.as_slice())
}

} // verus!

verus! {

proof fn lemma_words_sum_le(data: Seq<u8>, n: nat)
    requires
        2 * n <= data.len(),
    ensures
        0 <= words_sum(data, n) <= n * 0xffff,
    decreases n,
{
    if n > 0 {
        lemma_words_sum_le(data, (n - 1) as nat);
    }
}

/// The plain sum of `data` is at most one 16-bit word per two bytes.
pub proof fn lemma_raw_sum_le(data: Seq<u8>)
    ensures
        0 <= raw_sum(data) <= (data.len() / 2 + 1) * 0xffff,
{
    lemma_words_sum_le(data, data.len() / 2);
}

} // verus!

verus! {

/// The pseudo header that TCP and UDP checksums cover: the two addresses, a
/// zero byte, the protocol and the transport length.
#[derive(Debug, Copy, Clone)]
pub struct PseudoHeader {
    pub src_ip: crate::net::ip::Ip4,
    pub dst_ip: crate::net::ip::Ip4,
    pub zero: u8,
    pub prot: crate::net::ip::IpType,
    pub len: NetU16,
}

impl PseudoHeader {
    /// The pseudo header's bytes.
    pub open spec fn spec_bytes(&self) -> Seq<u8> {
        self.src_ip.v@ + self.dst_ip.v@ + seq![self.zero, self.prot.spec_number()]
            + crate::net::util::be16(self.len.spec_value())
    }

    /// The pseudo header of a packet with the given IPv4 header; the
    /// transport length is the total length less the 20-byte IPv4 header.
    pub fn new(ip_hdr: &crate::net::ip::IpHeader) -> (p: PseudoHeader)
        requires
            ip_hdr.len.spec_value() >= 20,
        ensures
            p.src_ip == ip_hdr.src_ip,
            p.dst_ip == ip_hdr.dest_ip,
            p.zero == 0,
            p.prot == ip_hdr.protocol,
            p.len.spec_value() == ip_hdr.len.spec_value() - 20,
    {
        PseudoHeader {
            src_ip: ip_hdr.src_ip,
            dst_ip: ip_hdr.dest_ip,
            zero: 0,
            prot: ip_hdr.protocol,
            len: NetU16::new(ip_hdr.len.value() - 20),
        }
    }

    /// The pseudo header's bytes.
    pub fn to_bytes(&self) -> (r: Vec<u8>)
        ensures
            r@ == self.spec_bytes(),
    {
        let mut out: Vec<u8> = Vec::new();
        crate::net::util::push_all(&mut out, &self.src_ip.v);
        crate::net::util::push_all(&mut out, &self.dst_ip.v);
        out.push(self.zero);
        out.push(self.prot.number());
        crate::net::util::push_be16(&mut out, self.len.value());
        assert(out@ =~= self.spec_bytes());
        out
    }
}

} // verus!
