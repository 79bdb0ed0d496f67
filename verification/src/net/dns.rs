//! DNS queries for an IPv4 address and the parsing of their answers.
use vstd::prelude::*;
use std::collections::BTreeMap;
use crate::net::ip::Ip4;
use crate::net::packet::PacketKind;
use crate::net::util::{NetU16, be16, be16_value, push_be16, read_be16, write_bytes_at, overwrite,
    swap16, lemma_swap16_involutive};

verus! {

broadcast use {vstd::laws_cmp::group_laws_cmp, vstd::std_specs::btree::group_btree_axioms};

/// Marker for the DNS layer of a packet.
#[derive(Debug, Copy, Clone)]
pub struct Dns {}

impl PacketKind for Dns {}

/// The DNS message header, 12 bytes on the wire.
#[derive(Debug, Copy, Clone)]
pub struct DnsHeader {
    pub id: NetU16,
    pub flags: NetU16,
    pub question_cnt: NetU16,
    pub answer_cnt: NetU16,
    pub authority_cnt: NetU16,
    pub additional_cnt: NetU16,
}

/// The size of the DNS header.
pub const DNS_HEADER_SIZE: usize = 12;

impl DnsHeader {
    /// The header's bytes as they travel on the wire.
    pub open spec fn spec_bytes(&self) -> Seq<u8> {
        be16(self.id.spec_value()) + be16(self.flags.spec_value()) + be16(
            self.question_cnt.spec_value(),
        ) + be16(self.answer_cnt.spec_value()) + be16(self.authority_cnt.spec_value()) + be16(
            self.additional_cnt.spec_value(),
        )
    }

    /// A header with every field zero.
    pub fn zeroed() -> (h: DnsHeader)
        ensures
            h.id.spec_value() == 0 && h.flags.spec_value() == 0 && h.question_cnt.spec_value() == 0
                && h.answer_cnt.spec_value() == 0 && h.authority_cnt.spec_value() == 0
                && h.additional_cnt.spec_value() == 0,
    {
        DnsHeader {
            id: NetU16::new(0),
            flags: NetU16::new(0),
            question_cnt: NetU16::new(0),
            answer_cnt: NetU16::new(0),
            authority_cnt: NetU16::new(0),
            additional_cnt: NetU16::new(0),
        }
    }

    /// The query identifier.
    pub fn id(&self) -> (r: u16)
        ensures
            r == self.id.spec_value(),
    {
        self.id.value()
    }

    /// Sets the query identifier.
    pub fn set_id(&mut self, id: u16)
        ensures
            final(self).id.spec_value() == id,
            *final(self) == (DnsHeader { id: final(self).id, ..*old(self) }),
    {
        self.id = NetU16::new(id);
    }

    /// The flags word.
    pub fn flags(&self) -> (r: u16)
        ensures
            r == self.flags.spec_value(),
    {
        self.flags.value()
    }

    /// Sets the flags word.
    pub fn set_flags(&mut self, flags: u16)
        ensures
            final(self).flags.spec_value() == flags,
            *final(self) == (DnsHeader { flags: final(self).flags, ..*old(self) }),
    {
        self.flags = NetU16::new(flags);
    }

    /// The number of questions.
    pub fn question_count(&self) -> (r: u16)
        ensures
            r == self.question_cnt.spec_value(),
    {
        self.question_cnt.value()
    }

    /// Sets the number of questions.
    pub fn set_question_count(&mut self, cnt: u16)
        ensures
            final(self).question_cnt.spec_value() == cnt,
            *final(self) == (DnsHeader { question_cnt: final(self).question_cnt, ..*old(self) }),
    {
        self.question_cnt = NetU16::new(cnt);
    }

    /// The number of answers.
    pub fn answer_count(&self) -> (r: u16)
        ensures
            r == self.answer_cnt.spec_value(),
    {
        self.answer_cnt.value()
    }

    /// Sets the number of answers.
    pub fn set_answer_count(&mut self, cnt: u16)
        ensures
            final(self).answer_cnt.spec_value() == cnt,
            *final(self) == (DnsHeader { answer_cnt: final(self).answer_cnt, ..*old(self) }),
    {
        self.answer_cnt = NetU16::new(cnt);
    }

    /// The number of authority records.
    pub fn authority_count(&self) -> (r: u16)
        ensures
            r == self.authority_cnt.spec_value(),
    {
        self.authority_cnt.value()
    }

    /// Sets the number of authority records.
    pub fn set_authority_count(&mut self, cnt: u16)
        ensures
            final(self).authority_cnt.spec_value() == cnt,
            *final(self) == (DnsHeader { authority_cnt: final(self).authority_cnt, ..*old(self) }),
    {
        self.authority_cnt = NetU16::new(cnt);
    }

    /// The number of additional records.
    pub fn additional_count(&self) -> (r: u16)
        ensures
            r == self.additional_cnt.spec_value(),
    {
        self.additional_cnt.value()
    }

    /// Sets the number of additional records.
    pub fn set_additional_count(&mut self, cnt: u16)
        ensures
            final(self).additional_cnt.spec_value() == cnt,
            *final(self) == (DnsHeader { additional_cnt: final(self).additional_cnt, ..*old(self) }),
    {
        self.additional_cnt = NetU16::new(cnt);
    }

    /// Where the records after a header at `addr` start.
    pub fn payload(&self, addr: usize) -> (p: PostHeader)
        requires
            addr + 12 <= usize::MAX,
        ensures
            p.addr == addr + 12,
    {
        PostHeader { addr: addr + DNS_HEADER_SIZE }
    }

    /// The header's bytes as they travel on the wire.
    pub fn to_bytes(&self) -> (r: Vec<u8>)
        ensures
            r@ == self.spec_bytes(),
            r@.len() == DNS_HEADER_SIZE,
    {
        let mut out: Vec<u8> = Vec::new();
        push_be16(&mut out, self.id.value());
        push_be16(&mut out, self.flags.value());
        push_be16(&mut out, self.question_cnt.value());
        push_be16(&mut out, self.answer_cnt.value());
        push_be16(&mut out, self.authority_cnt.value());
        push_be16(&mut out, self.additional_cnt.value());
        assert(out@ =~= self.spec_bytes());
        out
    }

    /// The header in the first 12 bytes of `b`.
    pub fn from_bytes(b: &[u8]) -> (h: DnsHeader)
        requires
            b.len() >= DNS_HEADER_SIZE,
        ensures
            h.spec_bytes() == b@.take(12),
    {
        let h = DnsHeader {
            id: NetU16::new(read_be16(b, 0)),
            flags: NetU16::new(read_be16(b, 2)),
            question_cnt: NetU16::new(read_be16(b, 4)),
            answer_cnt: NetU16::new(read_be16(b, 6)),
            authority_cnt: NetU16::new(read_be16(b, 8)),
            additional_cnt: NetU16::new(read_be16(b, 10)),
        };
        proof {
            crate::net::util::lemma_be16_bytes_roundtrip(b@[0], b@[1]);
            crate::net::util::lemma_be16_bytes_roundtrip(b@[2], b@[3]);
            crate::net::util::lemma_be16_bytes_roundtrip(b@[4], b@[5]);
            crate::net::util::lemma_be16_bytes_roundtrip(b@[6], b@[7]);
            crate::net::util::lemma_be16_bytes_roundtrip(b@[8], b@[9]);
            crate::net::util::lemma_be16_bytes_roundtrip(b@[10], b@[11]);
            assert(h.spec_bytes() =~= b@.take(12));
        }
        h
    }
}

/// The byte `.`.
pub open spec fn dot() -> u8 {
    46u8
}

/// How many bytes from `s` on come before the next `.` or the end of `name`.
pub open spec fn label_len(name: Seq<u8>, s: int) -> int
    decreases name.len() - s,
{
    if s < 0 || s >= name.len() || name[s] == dot() {
        0
    } else {
        1 + label_len(name, s + 1)
    }
}

/// The wire form of a dotted name: each label preceded by its length (cut to
/// a byte), then a zero byte.
pub open spec fn qname_encoding(name: Seq<u8>) -> Seq<u8> {
    Seq::new(
        (name.len() + 2) as nat,
        |k: int|
            if k == 0 {
                label_len(name, 0) as u8
            } else if k <= name.len() {
                if name[k - 1] == dot() {
                    label_len(name, k) as u8
                } else {
                    name[k - 1]
                }
            } else {
                0u8
            },
    )
}

/// Position just past the first zero byte at or after `p`, if there is one.
pub open spec fn name_end(m: Seq<u8>, p: int) -> Option<int>
    decreases m.len() - p,
{
    if p < 0 || p >= m.len() {
        None
    } else if m[p] == 0 {
        Some(p + 1)
    } else {
        name_end(m, p + 1)
    }
}

/// Position past `n` questions (a name, then type and class) starting at `p`.
pub open spec fn skip_questions(m: Seq<u8>, p: int, n: nat) -> Option<int>
    decreases n,
{
    if n == 0 {
        Some(p)
    } else {
        match name_end(m, p) {
            Some(e) => skip_questions(m, e + 4, (n - 1) as nat),
            None => None,
        }
    }
}

/// Position past the name of a record at `p`: two bytes for a compressed
/// name (top bits set), else past its zero byte.
pub open spec fn answer_name_end(m: Seq<u8>, p: int) -> Option<int> {
    if p < 0 || p + 2 > m.len() {
        None
    } else if be16_value(m[p], m[p + 1]) & 0xC000 != 0 {
        Some(p + 2)
    } else {
        name_end(m, p)
    }
}

/// What a DNS answer message yields: its identifier and the address in its
/// first answer (0.0.0.0 when it has no answer); `None` when the message is
/// too short for what it announces.
pub open spec fn dns_result(m: Seq<u8>) -> Option<(u16, Seq<u8>)> {
    if m.len() < 12 {
        None
    } else if be16_value(m[6], m[7]) == 0 {
        Some((be16_value(m[0], m[1]), seq![0u8, 0, 0, 0]))
    } else {
        match skip_questions(m, 12, be16_value(m[4], m[5]) as nat) {
            None => None,
            Some(p) => match answer_name_end(m, p) {
                None => None,
                Some(a) => if a + 10 <= m.len() && be16_value(m[a + 8], m[a + 9]) >= 4 && a + 10
                    + be16_value(m[a + 8], m[a + 9]) <= m.len() {
                    Some((be16_value(m[0], m[1]), m.subrange(a + 10, a + 14)))
                } else {
                    None
                },
            },
        }
    }
}

/// A name in a message, at `addr`.
pub struct QName {
    pub addr: usize,
}

impl QName {
    /// The name at `a`.
    pub fn new(a: usize) -> (q: QName)
        ensures
            q.addr == a,
    {
        QName { addr: a }
    }

    /// The position just past the name's terminating zero byte.
    pub fn skip(&self, m: &[u8]) -> (r: Option<usize>)
        ensures
            r matches Some(e) ==> name_end(m@, self.addr as int) == Some(e as int),
            r is None ==> name_end(m@, self.addr as int) is None,
    {
        let mut a = self.addr;
        while a < m.len() && m[a] != 0
            invariant
                self.addr <= a,
                name_end(m@, a as int) == name_end(m@, self.addr as int),
            decreases m.len() - a,
        {
            a = a + 1;
        }
        if a >= m.len() {
            return None;
        }
        Some(a + 1)
    }

    /// Writes `name` in wire form at the name's position and returns the
    /// position just past it.
    pub fn encode(&mut self, m: &mut Vec<u8>, name: &[u8]) -> (end: usize)
        requires
            self.addr + name.len() + 2 <= old(m)@.len(),
        ensures
            final(m)@ == overwrite(old(m)@, old(self).addr as int, qname_encoding(name@)),
            end == old(self).addr + name.len() + 2,
            final(self).addr == old(self).addr,
    {
        let addr = self.addr;
        let n = name.len();
        let total = m.len();
        let ghost enc = qname_encoding(name@);
        let mut label: usize = addr;
        let mut ptr: usize = addr + 1;
        let mut len: usize = 0;
        let mut i: usize = 0;
        while i < n
            invariant
                n == name@.len(),
                addr + n + 2 <= old(m)@.len(),
                m@.len() == old(m)@.len(),
                m.len() == old(m)@.len(),
                enc == qname_encoding(name@),
                i <= n,
                ptr == addr + 1 + i,
                addr <= label < ptr,
                len == ptr - label - 1,
                label == addr || name@[label - addr - 1] == dot(),
                forall|j: int| label - addr <= j < i ==> #[trigger] name@[j] != dot(),
                forall|q: int|
                    addr <= q < ptr && q != label ==> #[trigger] m@[q] == enc[q - addr],
                forall|q: int|
                    0 <= q < m@.len() && !(addr <= q < ptr) ==> #[trigger] m@[q] == old(m)@[q],
            decreases n - i,
        {
            let e = name[i];
            if e == 46u8 {
                proof {
                    lemma_label_len_run(name@, (label - addr) as int, i as int);
                }
                m.set(label, len as u8);
                label = ptr;
                len = 0;
            } else {
                m.set(ptr, e);
                len = len + 1;
            }
            ptr = ptr + 1;
            i = i + 1;
        }
        proof {
            lemma_label_len_run(name@, (label - addr) as int, n as int);
        }
        m.set(label, len as u8);
        m.set(ptr, 0u8);
        ptr = ptr + 1;
        assert(m@ =~= overwrite(old(m)@, addr as int, enc));
        ptr
    }
}

/// A DNS header is determined by its bytes: parsing the bytes that
/// `to_bytes` writes gives the header back.
pub proof fn lemma_dns_header_bytes_injective(a: DnsHeader, b: DnsHeader)
    requires
        a.spec_bytes() == b.spec_bytes(),
    ensures
        a == b,
{
    crate::net::util::lemma_concat_split(be16(a.id.spec_value()) + be16(a.flags.spec_value()) + be16(a.question_cnt.spec_value()) + be16(a.answer_cnt.spec_value()) + be16(a.authority_cnt.spec_value()), be16(a.additional_cnt.spec_value()), be16(b.id.spec_value()) + be16(b.flags.spec_value()) + be16(b.question_cnt.spec_value()) + be16(b.answer_cnt.spec_value()) + be16(b.authority_cnt.spec_value()), be16(b.additional_cnt.spec_value()));
    crate::net::util::lemma_concat_split(be16(a.id.spec_value()) + be16(a.flags.spec_value()) + be16(a.question_cnt.spec_value()) + be16(a.answer_cnt.spec_value()), be16(a.authority_cnt.spec_value()), be16(b.id.spec_value()) + be16(b.flags.spec_value()) + be16(b.question_cnt.spec_value()) + be16(b.answer_cnt.spec_value()), be16(b.authority_cnt.spec_value()));
    crate::net::util::lemma_concat_split(be16(a.id.spec_value()) + be16(a.flags.spec_value()) + be16(a.question_cnt.spec_value()), be16(a.answer_cnt.spec_value()), be16(b.id.spec_value()) + be16(b.flags.spec_value()) + be16(b.question_cnt.spec_value()), be16(b.answer_cnt.spec_value()));
    crate::net::util::lemma_concat_split(be16(a.id.spec_value()) + be16(a.flags.spec_value()), be16(a.question_cnt.spec_value()), be16(b.id.spec_value()) + be16(b.flags.spec_value()), be16(b.question_cnt.spec_value()));
    crate::net::util::lemma_concat_split(be16(a.id.spec_value()), be16(a.flags.spec_value()), be16(b.id.spec_value()), be16(b.flags.spec_value()));
    crate::net::util::lemma_net16_bytes_injective(a.id, b.id);
    crate::net::util::lemma_net16_bytes_injective(a.flags, b.flags);
    crate::net::util::lemma_net16_bytes_injective(a.question_cnt, b.question_cnt);
    crate::net::util::lemma_net16_bytes_injective(a.answer_cnt, b.answer_cnt);
    crate::net::util::lemma_net16_bytes_injective(a.authority_cnt, b.authority_cnt);
    crate::net::util::lemma_net16_bytes_injective(a.additional_cnt, b.additional_cnt);
}

/// A run of bytes with no `.` up to a dot or the end adds its length to the
/// label length of the rest.
pub proof fn lemma_label_len_run(name: Seq<u8>, s: int, i: int)
    requires
        0 <= s <= i <= name.len(),
        forall|j: int| s <= j < i ==> #[trigger] name[j] != dot(),
        i == name.len() || name[i] == dot(),
    ensures
        label_len(name, s) == i - s,
    decreases i - s,
{
    if s < i {
        lemma_label_len_run(name, s + 1, i);
    }
}

/// Where the records after the header begin.
pub struct PostHeader {
    pub addr: usize,
}

impl PostHeader {
    /// A question at this position.
    pub fn question(&mut self) -> (q: Question)
        ensures
            q.addr == old(self).addr,
            *final(self) == *old(self),
    {
        Question { addr: self.addr }
    }

    /// An answer at this position.
    pub fn answer(&mut self) -> (a: Answer)
        ensures
            a.addr == old(self).addr,
            *final(self) == *old(self),
    {
        Answer { addr: self.addr }
    }
}

/// A question record at `addr`.
pub struct Question {
    pub addr: usize,
}

impl Question {
    /// The same position, seen as the start of the following records.
    pub fn as_postheader(&self) -> (p: PostHeader)
        ensures
            p.addr == self.addr,
    {
        PostHeader { addr: self.addr }
    }

    /// The question after this one: past the name, the type and the class.
    pub fn skip(&self, m: &[u8]) -> (r: Option<Question>)
        ensures
            r matches Some(q) ==> name_end(m@, self.addr as int) == Some(q.addr - 4),
            r is None ==> name_end(m@, self.addr as int) is None || name_end(
                m@,
                self.addr as int,
            )->0 + 4 > usize::MAX,
    {
        match QName::new(self.addr).skip(m) {
            Some(e) => {
                if e > usize::MAX - 4 {
                    return None;
                }
                Some(Question { addr: e + 2 + 2 })
            },
            None => None,
        }
    }

    /// Writes `name` in wire form here; returns the position after it.
    pub fn encode_name(&mut self, m: &mut Vec<u8>, name: &[u8]) -> (q: Question)
        requires
            old(self).addr + name.len() + 2 <= old(m)@.len(),
        ensures
            final(m)@ == overwrite(old(m)@, old(self).addr as int, qname_encoding(name@)),
            q.addr == old(self).addr + name.len() + 2,
            *final(self) == *old(self),
    {
        let mut qn = QName::new(self.addr);
        Question { addr: qn.encode(m, name) }
    }

    /// Writes the record type here; returns the position after it.
    pub fn encode_type(&mut self, m: &mut Vec<u8>, typ: u16) -> (q: Question)
        requires
            old(self).addr + 2 <= old(m)@.len(),
        ensures
            final(m)@ == overwrite(old(m)@, old(self).addr as int, be16(typ)),
            q.addr == old(self).addr + 2,
            *final(self) == *old(self),
    {
        let total = m.len();
        let mut b: Vec<u8> = Vec::new();
        push_be16(&mut b, typ);
        assert(b@ =~= be16(typ));
        write_bytes_at(m, self.addr, b.as_slice());
        Question { addr: self.addr + 2 }
    }

    /// Writes the record class here; returns the position after it.
    pub fn encode_class(&mut self, m: &mut Vec<u8>, class: u16) -> (q: Question)
        requires
            old(self).addr + 2 <= old(m)@.len(),
        ensures
            final(m)@ == overwrite(old(m)@, old(self).addr as int, be16(class)),
            q.addr == old(self).addr + 2,
            *final(self) == *old(self),
    {
        let total = m.len();
        let mut b: Vec<u8> = Vec::new();
        push_be16(&mut b, class);
        assert(b@ =~= be16(class));
        write_bytes_at(m, self.addr, b.as_slice());
        Question { addr: self.addr + 2 }
    }
}

/// An answer record at `addr`.
pub struct Answer {
    pub addr: usize,
}

impl Answer {
    /// The position past the record's name (compressed or not).
    pub fn skip_name(&self, m: &[u8]) -> (r: Option<usize>)
        ensures
            r matches Some(e) ==> answer_name_end(m@, self.addr as int) == Some(e as int),
            r is None ==> answer_name_end(m@, self.addr as int) is None,
    {
        if self.addr >= m.len() || m.len() - self.addr < 2 {
            return None;
        }
        let f = read_be16(m, self.addr);
        if f & 0xC000 != 0 {
            Some(self.addr + 2)
        } else {
            QName::new(self.addr).skip(m)
        }
    }

    /// The record's data: past the name, type, class and time to live, the
    /// length-prefixed bytes; `None` when they run past the message.
    pub fn rdata<'a>(&self, m: &'a [u8]) -> (r: Option<&'a [u8]>)
        ensures
            r matches Some(d) ==> ({
                let a = answer_name_end(m@, self.addr as int)->0;
                &&& answer_name_end(m@, self.addr as int) is Some
                &&& a + 10 <= m@.len()
                &&& a + 10 + be16_value(m@[a + 8], m@[a + 9]) <= m@.len()
                &&& d@ == m@.subrange(a + 10, a + 10 + be16_value(m@[a + 8], m@[a + 9]))
            }),
            r is None ==> ({
                let a = answer_name_end(m@, self.addr as int)->0;
                answer_name_end(m@, self.addr as int) is None || a + 10 > m@.len() || a + 10
                    + be16_value(m@[a + 8], m@[a + 9]) > m@.len()
            }),
    {
        let a = match self.skip_name(m) {
            Some(a) => a,
            None => return None,
        };
        if a > m.len() || m.len() - a < 10 {
            return None;
        }
        let len = read_be16(m, a + 8) as usize;
        if m.len() - (a + 10) < len {
            return None;
        }
        Some(vstd::slice::slice_subrange(m, a + 10, a + 10 + len))
    }
}

/// Writes the query for the address (type A, class IN) of `host`, with
/// identifier `id` and recursion desired, at offset `at` of `frame`.
pub fn write_query(frame: &mut Vec<u8>, at: usize, host: &[u8], id: u16)
    requires
        at + 12 + host.len() + 6 <= old(frame)@.len(),
    ensures
        final(frame)@ == overwrite(
            old(frame)@,
            at as int,
            be16(id) + be16(0x100) + be16(1) + be16(0) + be16(0) + be16(0) + qname_encoding(host@)
                + be16(1) + be16(1),
        ),
{
    let total = frame.len();
    let mut header = DnsHeader::zeroed();
    header.set_id(id);
    header.set_flags(0x100);
    header.set_question_count(1);
    header.set_answer_count(0);
    header.set_authority_count(0);
    header.set_additional_count(0);
    let hb = header.to_bytes();
    write_bytes_at(frame, at, hb.as_slice());
    let ghost f1 = frame@;
    let mut enc = header.payload(at).question();
    let mut q2 = enc.encode_name(frame, host);
    let ghost f2 = frame@;
    let mut q3 = q2.encode_type(frame, 1);
    let ghost f3 = frame@;
    let _q4 = q3.encode_class(frame, 1);
    assert(frame@ =~= overwrite(
        old(frame)@,
        at as int,
        be16(id) + be16(0x100) + be16(1) + be16(0) + be16(0) + be16(0) + qname_encoding(host@)
            + be16(1) + be16(1),
    ));
}

/// A UDP frame from `src_port` to port 53 of the name server `dns` that asks
/// for the address of `host`; the DNS payload has 512 bytes.
pub fn query_host(
    host: &[u8],
    src_port: u32,
    id: u16,
    dns: Ip4,
    src_ip: Ip4,
    own_mac: &[u8; 6],
) -> (frame: Vec<u8>)
    requires
        host.len() + 18 <= 512,
    ensures
        frame@ == overwrite(
            crate::net::udp::udp_frame(src_port as u16, 53, 512, dns, src_ip, own_mac@),
            42,
            be16(id) + be16(0x100) + be16(1) + be16(0) + be16(0) + be16(0) + qname_encoding(host@)
                + be16(1) + be16(1),
        ),
{
    let mut frame = crate::net::udp::create_packet(src_port as u16, 53, 512, dns, src_ip, own_mac);
    write_query(&mut frame, 42, host, id);
    frame
}

/// Reads the answer to a query and records it under the query's identifier:
/// the address in the first answer, or 0.0.0.0 when there is none. A message
/// too short for what it announces records nothing.
pub fn process_packet(m: &[u8], results: &mut BTreeMap<u16, Ip4>) -> (r: Option<u16>)
    requires
        m.len() + 4 <= usize::MAX,
    ensures
        r is Some <==> dns_result(m@) is Some,
        r matches Some(id) ==> ({
            let (rid, addr) = dns_result(m@)->0;
            &&& id == rid
            &&& final(results)@.contains_key(id)
            &&& final(results)@[id].v@ == addr
            &&& final(results)@.remove(id) == old(results)@.remove(id)
        }),
        r is None ==> final(results)@ == old(results)@,
{
    if m.len() < DNS_HEADER_SIZE {
        return None;
    }
    let hdr = DnsHeader::from_bytes(m);
    proof {
        lemma_dns_header_fields(hdr, m@);
    }
    let id = hdr.id();
    let mut phdr = hdr.payload(0);
    if hdr.answer_count() == 0 {
        results.insert(id, Ip4::empty());
        return Some(id);
    }
    let qc = hdr.question_count();
    let mut k: u16 = 0;
    while k < qc
        invariant
            k <= qc,
            m.len() + 4 <= usize::MAX,
            m@.len() >= 12,
            qc == be16_value(m@[4], m@[5]),
            be16_value(m@[6], m@[7]) != 0,
            results@ == old(results)@,
            skip_questions(m@, 12, qc as nat) == skip_questions(m@, phdr.addr as int, (qc - k) as nat),
        decreases qc - k,
    {
        match phdr.question().skip(m) {
            Some(q) => {
                phdr = q.as_postheader();
            },
            None => {
                proof {
                    lemma_skip_questions_none(m@, phdr.addr as int, (qc - k) as nat);
                }
                return None;
            },
        }
        k = k + 1;
    }
    let ans = phdr.answer();
    assert(skip_questions(m@, phdr.addr as int, 0) == Some(phdr.addr as int));
    assert(skip_questions(m@, 12, qc as nat) == Some(ans.addr as int));
    match ans.rdata(m) {
        None => None,
        Some(rdata) => {
            let ghost a = answer_name_end(m@, ans.addr as int)->0;
            proof {
                lemma_name_end_bound(m@, ans.addr as int);
            }
            assert(a >= 0);
            assert(rdata@.len() == be16_value(m@[a + 8], m@[a + 9]));
            if rdata.len() < 4 {
                return None;
            }
            let ip = Ip4 { v: [rdata[0], rdata[1], rdata[2], rdata[3]] };
            results.insert(id, ip);
            proof {
                let res = dns_result(m@)->0;
                assert(ip.v@ =~= res.1);
                assert(results@.remove(id) =~= old(results)@.remove(id));
            }
            Some(id)
        },
    }
}

/// The fields of a header read from bytes are the big-endian values of those bytes.
pub proof fn lemma_dns_header_fields(h: DnsHeader, m: Seq<u8>)
    requires
        m.len() >= 12,
        h.spec_bytes() == m.take(12),
    ensures
        h.id.spec_value() == be16_value(m[0], m[1]),
        h.question_cnt.spec_value() == be16_value(m[4], m[5]),
        h.answer_cnt.spec_value() == be16_value(m[6], m[7]),
{
    let b = h.spec_bytes();
    assert(b.subrange(0, 2) =~= be16(h.id.spec_value()));
    assert(b.subrange(4, 6) =~= be16(h.question_cnt.spec_value()));
    assert(b.subrange(6, 8) =~= be16(h.answer_cnt.spec_value()));
    crate::net::util::lemma_be16_roundtrip(h.id.spec_value());
    crate::net::util::lemma_be16_roundtrip(h.question_cnt.spec_value());
    crate::net::util::lemma_be16_roundtrip(h.answer_cnt.spec_value());
    assert(b[0] == m[0] && b[1] == m[1] && b[4] == m[4] && b[5] == m[5] && b[6] == m[6] && b[7]
        == m[7]);
}

proof fn lemma_skip_questions_none(m: Seq<u8>, p: int, n: nat)
    requires
        n > 0,
        name_end(m, p) is None || name_end(m, p)->0 + 4 > usize::MAX,
        p >= 0,
        m.len() + 4 <= usize::MAX,
    ensures
        skip_questions(m, p, n) is None,
{
    lemma_name_end_bound(m, p);
}

proof fn lemma_name_end_bound(m: Seq<u8>, p: int)
    ensures
        name_end(m, p) matches Some(e) ==> p < e <= m.len(),
    decreases m.len() - p,
{
    if 0 <= p < m.len() && m[p] != 0 {
        lemma_name_end_bound(m, p + 1);
    }
}

/// Takes the recorded answer to query `id`, if it has arrived.
pub fn take_result(results: &mut BTreeMap<u16, Ip4>, id: u16) -> (r: Option<Ip4>)
    ensures
        r is Some <==> old(results)@.contains_key(id),
        r matches Some(ip) ==> ip == old(results)@[id],
        final(results)@ == old(results)@.remove(id),
{
    results.remove(&id)
}

} // verus!

verus! {

/// What the lookup service bound to port `dst_port` does with a datagram
/// that reaches it: the answer is recorded (see `process_packet`) and the
/// port is released, the lookup being over.
pub fn service_packet<H>(
    m: &[u8],
    dst_port: u32,
    results: &mut BTreeMap<u16, Ip4>,
    handlers: &mut BTreeMap<u32, H>,
) -> (r: Option<u16>)
    requires
        m.len() + 4 <= usize::MAX,
        old(handlers)@.contains_key(dst_port),
    ensures
        r is Some <==> dns_result(m@) is Some,
        r matches Some(id) ==> ({
            let (rid, addr) = dns_result(m@)->0;
            &&& id == rid
            &&& final(results)@.contains_key(id)
            &&& final(results)@[id].v@ == addr
            &&& final(results)@.remove(id) == old(results)@.remove(id)
        }),
        r is None ==> final(results)@ == old(results)@,
        final(handlers)@ == old(handlers)@.remove(dst_port),
{
    let r = process_packet(m, results);
    crate::net::udp::release_handler(handlers, dst_port);
    r
}

/// Starts a lookup of `host`: binds `service` to a free ephemeral UDP port
/// and builds the query sent from it. `None` when no ephemeral port is free.
pub fn get_ip_by_host<H>(
    host: &[u8],
    handlers: &mut BTreeMap<u32, H>,
    service: H,
    id: u16,
    dns: Ip4,
    src_ip: Ip4,
    own_mac: &[u8; 6],
) -> (r: Option<(u32, Vec<u8>)>)
    requires
        host.len() + 18 <= 512,
    ensures
        r is None ==> crate::net::ports::all_taken(old(handlers)@, 49152, 65536),
        r is None ==> final(handlers)@ == old(handlers)@,
        r matches Some((port, frame)) ==> {
            &&& 49152 <= port <= 65535
            &&& !old(handlers)@.contains_key(port)
            &&& crate::net::ports::all_taken(old(handlers)@, 49152, port as int)
            &&& final(handlers)@ == old(handlers)@.insert(port, service)
            &&& frame@ == overwrite(
                crate::net::udp::udp_frame(port as u16, 53, 512, dns, src_ip, own_mac@),
                42,
                be16(id) + be16(0x100) + be16(1) + be16(0) + be16(0) + be16(0) + qname_encoding(
                    host@,
                ) + be16(1) + be16(1),
            )
        },
{
    match crate::net::udp::register_ephemeral_handler(handlers, service) {
        Some(port) => Some((port, query_host(host, port, id, dns, src_ip, own_mac))),
        None => None,
    }
}

} // verus!
