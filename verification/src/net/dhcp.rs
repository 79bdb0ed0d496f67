//! DHCP on the client side: the discovery and request messages this host
//! broadcasts, and the reading of the server's answers.
use vstd::prelude::*;
use crate::net::eth::{zeros, push_zeros};
use crate::net::ip::Ip4;
use crate::net::util::{be16, be32, overwrite, push_all, push_be16, push_be32, read_be16, read_be32,
    lemma_be16_bytes_roundtrip, lemma_be32_bytes_roundtrip};

verus! {

/// The transaction identifier of every message this client sends.
pub const DHCP_XID: u32 = 0x43424140;
/// The size of the DHCP header, options field included.
pub const DHCP_HEADER_SIZE: usize = 300;
/// Where the options field starts in the header.
pub const DHCP_OPTIONS_OFFSET: usize = 236;
/// The size of the options field.
pub const DHCP_OPTIONS_SIZE: usize = 64;

/// The message types carried in option 53.
#[derive(Debug, Copy, Clone, PartialEq, Eq, Structural)]
pub enum DhcpOptMsgType {
    DhcpDiscover,
    DhcpOffer,
    DhcpRequest,
    DhcpDecline,
    DhcpAck,
    DhcpNAck,
    DhcpRelease,
}

impl DhcpOptMsgType {
    /// The number carried in the option.
    pub open spec fn spec_number(self) -> u8 {
        match self {
            DhcpOptMsgType::DhcpDiscover => 1,
            DhcpOptMsgType::DhcpOffer => 2,
            DhcpOptMsgType::DhcpRequest => 3,
            DhcpOptMsgType::DhcpDecline => 4,
            DhcpOptMsgType::DhcpAck => 5,
            DhcpOptMsgType::DhcpNAck => 6,
            DhcpOptMsgType::DhcpRelease => 7,
        }
    }

    /// The number carried in the option.
    pub fn number(self) -> (r: u8)
        ensures
            r == self.spec_number(),
    {
        match self {
            DhcpOptMsgType::DhcpDiscover => 1,
            DhcpOptMsgType::DhcpOffer => 2,
            DhcpOptMsgType::DhcpRequest => 3,
            DhcpOptMsgType::DhcpDecline => 4,
            DhcpOptMsgType::DhcpAck => 5,
            DhcpOptMsgType::DhcpNAck => 6,
            DhcpOptMsgType::DhcpRelease => 7,
        }
    }

    /// The type with the given number, if it is one of the seven.
    pub open spec fn spec_from_number(n: u8) -> Option<DhcpOptMsgType> {
        if n == 1 {
            Some(DhcpOptMsgType::DhcpDiscover)
        } else if n == 2 {
            Some(DhcpOptMsgType::DhcpOffer)
        } else if n == 3 {
            Some(DhcpOptMsgType::DhcpRequest)
        } else if n == 4 {
            Some(DhcpOptMsgType::DhcpDecline)
        } else if n == 5 {
            Some(DhcpOptMsgType::DhcpAck)
        } else if n == 6 {
            Some(DhcpOptMsgType::DhcpNAck)
        } else if n == 7 {
            Some(DhcpOptMsgType::DhcpRelease)
        } else {
            None
        }
    }

    /// The type with the given number, if it is one of the seven.
    pub fn from_number(n: u8) -> (r: Option<DhcpOptMsgType>)
        ensures
            r == DhcpOptMsgType::spec_from_number(n),
    {
        if n == 1 {
            Some(DhcpOptMsgType::DhcpDiscover)
        } else if n == 2 {
            Some(DhcpOptMsgType::DhcpOffer)
        } else if n == 3 {
            Some(DhcpOptMsgType::DhcpRequest)
        } else if n == 4 {
            Some(DhcpOptMsgType::DhcpDecline)
        } else if n == 5 {
            Some(DhcpOptMsgType::DhcpAck)
        } else if n == 6 {
            Some(DhcpOptMsgType::DhcpNAck)
        } else if n == 7 {
            Some(DhcpOptMsgType::DhcpRelease)
        } else {
            None
        }
    }
}

/// The options field being written, and the position of the next option.
pub struct OptionsBuilder {
    pub opts: Vec<u8>,
    pub pos: usize,
}

impl OptionsBuilder {
    /// The field has its 64 bytes and the position lies in it.
    pub open spec fn wf(&self) -> bool {
        self.opts@.len() == DHCP_OPTIONS_SIZE && self.pos <= DHCP_OPTIONS_SIZE
    }

    /// Writes the options into `opts` (of 64 bytes), from its start.
    pub fn new(opts: Vec<u8>) -> (b: OptionsBuilder)
        requires
            opts@.len() == DHCP_OPTIONS_SIZE,
        ensures
            b.wf(),
            b.opts@ == opts@,
            b.pos == 0,
    {
        OptionsBuilder { opts, pos: 0 }
    }

    /// Moves on by `by` bytes; moving past the end of the field is a bug.
    pub fn shift(self, by: usize) -> (b: OptionsBuilder)
        requires
            self.wf(),
            self.pos + by <= DHCP_OPTIONS_SIZE,
        ensures
            b.wf(),
            b.opts@ == self.opts@,
            b.pos == self.pos + by,
    {
        let mut b = self;
        b.pos = b.pos + by;
        b
    }

    /// Writes `bytes` at the position and moves past them.
    fn put(self, bytes: &[u8]) -> (b: OptionsBuilder)
        requires
            self.wf(),
            self.pos + bytes.len() <= DHCP_OPTIONS_SIZE,
        ensures
            b.wf(),
            b.opts@ == overwrite(self.opts@, self.pos as int, bytes@),
            b.pos == self.pos + bytes.len(),
    {
        let mut b = self;
        crate::net::util::write_bytes_at(&mut b.opts, b.pos, bytes);
        b.shift(bytes.len())
    }

    /// The magic cookie 99.130.83.99 that starts the options.
    pub fn set_magic_cookie(self) -> (b: OptionsBuilder)
        requires
            self.wf(),
            self.pos + 4 <= DHCP_OPTIONS_SIZE,
        ensures
            b.wf(),
            b.opts@ == overwrite(self.opts@, self.pos as int, seq![0x63u8, 0x82, 0x53, 0x63]),
            b.pos == self.pos + 4,
    {
        let c: [u8; 4] = [0x63, 0x82, 0x53, 0x63];
        assert(c@ =~= seq![0x63u8, 0x82, 0x53, 0x63]);
        self.put(&c)
    }

    /// Option 53: the message type.
    pub fn set_message_type(self, typ: DhcpOptMsgType) -> (b: OptionsBuilder)
        requires
            self.wf(),
            self.pos + 3 <= DHCP_OPTIONS_SIZE,
        ensures
            b.wf(),
            b.opts@ == overwrite(self.opts@, self.pos as int, seq![53u8, 1, typ.spec_number()]),
            b.pos == self.pos + 3,
    {
        let c: [u8; 3] = [53, 1, typ.number()];
        assert(c@ =~= seq![53u8, 1, typ.spec_number()]);
        self.put(&c)
    }

    /// Option 61: the client identifier, an Ethernet address.
    pub fn set_client_identifier(self, mac: &[u8; 6]) -> (b: OptionsBuilder)
        requires
            self.wf(),
            self.pos + 9 <= DHCP_OPTIONS_SIZE,
        ensures
            b.wf(),
            b.opts@ == overwrite(self.opts@, self.pos as int, seq![61u8, 7, 1] + mac@),
            b.pos == self.pos + 9,
    {
        let c: [u8; 9] = [61, 7, 1, mac[0], mac[1], mac[2], mac[3], mac[4], mac[5]];
        assert(c@ =~= seq![61u8, 7, 1] + mac@);
        self.put(&c)
    }

    /// Option 50: the address the client asks for.
    pub fn set_requested_ip(self, ip: crate::net::ip::Ip4) -> (b: OptionsBuilder)
        requires
            self.wf(),
            self.pos + 6 <= DHCP_OPTIONS_SIZE,
        ensures
            b.wf(),
            b.opts@ == overwrite(self.opts@, self.pos as int, seq![50u8, 4] + ip.v@),
            b.pos == self.pos + 6,
    {
        let c: [u8; 6] = [50, 4, ip.v[0], ip.v[1], ip.v[2], ip.v[3]];
        assert(c@ =~= seq![50u8, 4] + ip.v@);
        self.put(&c)
    }

    /// Option 12: the host name, followed by a zero byte.
    pub fn set_host_name(self, name: &[u8]) -> (b: OptionsBuilder)
        requires
            self.wf(),
            self.pos + name.len() + 3 <= DHCP_OPTIONS_SIZE,
        ensures
            b.wf(),
            b.opts@ == overwrite(self.opts@, self.pos as int, seq![12u8, name.len() as u8] + name@ + seq![0u8]),
            b.pos == self.pos + name.len() + 3,
    {
        let mut c: Vec<u8> = Vec::new();
        c.push(12);
        c.push(name.len() as u8);
        push_all(&mut c, name);
        c.push(0);
        assert(c@ =~= seq![12u8, name.len() as u8] + name@ + seq![0u8]);
        self.put(c.as_slice())
    }

    /// Option 55: asks for the subnet mask, router, domain name and name
    /// server.
    pub fn set_parameter_request_list(self) -> (b: OptionsBuilder)
        requires
            self.wf(),
            self.pos + 6 <= DHCP_OPTIONS_SIZE,
        ensures
            b.wf(),
            b.opts@ == overwrite(self.opts@, self.pos as int, seq![55u8, 4, 1, 3, 15, 6]),
            b.pos == self.pos + 6,
    {
        let c: [u8; 6] = [55, 4, 1, 3, 15, 6];
        assert(c@ =~= seq![55u8, 4, 1, 3, 15, 6]);
        self.put(&c)
    }

    /// Ends the options: the end mark 255, then zeros to the end of the
    /// field. Returns the field.
    pub fn finish(self) -> (opts: Vec<u8>)
        requires
            self.wf(),
            self.pos < DHCP_OPTIONS_SIZE,
        ensures
            opts@ == self.opts@.take(self.pos as int) + seq![0xffu8] + zeros((DHCP_OPTIONS_SIZE - self.pos - 1) as nat),
    {
        let mut tail: Vec<u8> = Vec::new();
        tail.push(0xff);
        push_zeros(&mut tail, DHCP_OPTIONS_SIZE - self.pos - 1);
        let b = self.put(tail.as_slice());
        proof {
            assert(b.opts@ =~= self.opts@.take(self.pos as int) + seq![0xffu8] + zeros(
                (DHCP_OPTIONS_SIZE - self.pos - 1) as nat,
            ));
        }
        b.opts
    }
}


/// The operation of a message.
#[derive(Debug, Copy, Clone, PartialEq, Eq, Structural)]
pub enum DhcpType {
    BootRequest,
    BootReply,
}

impl DhcpType {
    /// The number carried in the header.
    pub open spec fn spec_number(self) -> u8 {
        match self {
            DhcpType::BootRequest => 1,
            DhcpType::BootReply => 2,
        }
    }

    /// The number carried in the header.
    pub fn number(self) -> (r: u8)
        ensures
            r == self.spec_number(),
    {
        match self {
            DhcpType::BootRequest => 1,
            DhcpType::BootReply => 2,
        }
    }
}

/// The DHCP header, options field included.
pub struct DhcpHeader {
    pub op: u8,
    pub htype: u8,
    pub hlen: u8,
    pub hops: u8,
    pub xid: u32,
    pub seconds: u16,
    pub flags: u16,
    pub client_ip: Ip4,
    pub your_ip: Ip4,
    pub server_ip: Ip4,
    pub gateway_ip: Ip4,
    pub client_hw_addr: Vec<u8>,
    pub server_name: Vec<u8>,
    pub file: Vec<u8>,
    pub options: Vec<u8>,
}

impl DhcpHeader {
    /// The fields of variable type have their sizes: 16, 64, 128 and 64 bytes.
    pub open spec fn wf(&self) -> bool {
        &&& self.client_hw_addr@.len() == 16
        &&& self.server_name@.len() == 64
        &&& self.file@.len() == 128
        &&& self.options@.len() == DHCP_OPTIONS_SIZE
    }

    /// The header's bytes as they travel on the wire.
    pub open spec fn spec_bytes(&self) -> Seq<u8> {
        seq![self.op, self.htype, self.hlen, self.hops] + be32(self.xid) + be16(self.seconds) + be16(self.flags)
            + self.client_ip.v@ + self.your_ip.v@ + self.server_ip.v@ + self.gateway_ip.v@
            + self.client_hw_addr@ + self.server_name@ + self.file@ + self.options@
    }

    /// A header whose every byte is zero.
    pub fn zeroed() -> (h: DhcpHeader)
        ensures
            h.wf(),
            h.spec_bytes() == zeros(300),
    {
        let mut hw: Vec<u8> = Vec::new();
        push_zeros(&mut hw, 16);
        let mut sname: Vec<u8> = Vec::new();
        push_zeros(&mut sname, 64);
        let mut file: Vec<u8> = Vec::new();
        push_zeros(&mut file, 128);
        let mut options: Vec<u8> = Vec::new();
        push_zeros(&mut options, DHCP_OPTIONS_SIZE);
        let h = DhcpHeader {
            op: 0,
            htype: 0,
            hlen: 0,
            hops: 0,
            xid: 0,
            seconds: 0,
            flags: 0,
            client_ip: Ip4::empty(),
            your_ip: Ip4::empty(),
            server_ip: Ip4::empty(),
            gateway_ip: Ip4::empty(),
            client_hw_addr: hw,
            server_name: sname,
            file,
            options,
        };
        proof {
            lemma_zero_words();
            assert(h.spec_bytes() =~= zeros(300));
        }
        h
    }

    /// Ethernet hardware with 6-byte addresses, no hops, this client's
    /// transaction identifier, no time elapsed, the hardware address `mac`
    /// and the server name, file and options zeroed.
    pub fn init(&mut self, mac: &[u8; 6])
        ensures
            final(self).wf(),
            final(self).op == old(self).op && final(self).flags == old(self).flags,
            final(self).client_ip == old(self).client_ip && final(self).your_ip == old(self).your_ip,
            final(self).server_ip == old(self).server_ip && final(self).gateway_ip == old(self).gateway_ip,
            final(self).htype == 1 && final(self).hlen == 6 && final(self).hops == 0,
            final(self).xid == DHCP_XID && final(self).seconds == 0,
            final(self).client_hw_addr@ == mac@ + zeros(10),
            final(self).server_name@ == zeros(64),
            final(self).file@ == zeros(128),
            final(self).options@ == zeros(64),
    {
        self.htype = 1;
        self.hlen = 6;
        self.hops = 0;
        self.xid = DHCP_XID;
        self.seconds = 0;
        let mut hw: Vec<u8> = Vec::new();
        push_all(&mut hw, mac);
        push_zeros(&mut hw, 10);
        self.client_hw_addr = hw;
        let mut sname: Vec<u8> = Vec::new();
        push_zeros(&mut sname, 64);
        self.server_name = sname;
        let mut file: Vec<u8> = Vec::new();
        push_zeros(&mut file, 128);
        self.file = file;
        let mut options: Vec<u8> = Vec::new();
        push_zeros(&mut options, DHCP_OPTIONS_SIZE);
        self.options = options;
    }

    /// Sets the operation.
    pub fn set_op(&mut self, op: DhcpType)
        ensures
            *final(self) == (DhcpHeader { op: op.spec_number(), ..*old(self) }),
    {
        self.op = op.number();
    }

    /// Asks for broadcast answers (flag 0x8000), or not.
    pub fn set_flags_broadcast(&mut self, broadcast: bool)
        ensures
            final(self).flags == if broadcast { 0x8000u16 } else { 0u16 },
            *final(self) == (DhcpHeader { flags: final(self).flags, ..*old(self) }),
    {
        if broadcast {
            self.flags = 0x8000;
        } else {
            self.flags = 0;
        }
    }

    /// Sets the client's address.
    pub fn set_client_ip(&mut self, ip: Ip4)
        ensures
            *final(self) == (DhcpHeader { client_ip: ip, ..*old(self) }),
    {
        self.client_ip = ip;
    }

    /// Sets the address offered to the client.
    pub fn set_your_ip(&mut self, ip: Ip4)
        ensures
            *final(self) == (DhcpHeader { your_ip: ip, ..*old(self) }),
    {
        self.your_ip = ip;
    }

    /// The address offered to the client.
    pub fn your_ip(&self) -> (r: Ip4)
        ensures
            r == self.your_ip,
    {
        self.your_ip
    }

    /// Sets the server's address.
    pub fn set_server_ip(&mut self, ip: Ip4)
        ensures
            *final(self) == (DhcpHeader { server_ip: ip, ..*old(self) }),
    {
        self.server_ip = ip;
    }

    /// Sets the relay's address.
    pub fn set_gateway_ip(&mut self, ip: Ip4)
        ensures
            *final(self) == (DhcpHeader { gateway_ip: ip, ..*old(self) }),
    {
        self.gateway_ip = ip;
    }

    /// A writer of the options field, from its start; the field is taken
    /// out of the header (`finish` hands it back).
    pub fn options_builder(&mut self) -> (b: OptionsBuilder)
        requires
            old(self).wf(),
        ensures
            b.wf(),
            b.opts@ == old(self).options@,
            b.pos == 0,
            final(self).options@ == Seq::<u8>::empty(),
            *final(self) == (DhcpHeader { options: final(self).options, ..*old(self) }),
    {
        let mut opts: Vec<u8> = Vec::new();
        std::mem::swap(&mut opts, &mut self.options);
        OptionsBuilder::new(opts)
    }

    /// The header's bytes as they travel on the wire.
    pub fn to_bytes(&self) -> (r: Vec<u8>)
        ensures
            r@ == self.spec_bytes(),
    {
        let mut out: Vec<u8> = Vec::new();
        out.push(self.op);
        out.push(self.htype);
        out.push(self.hlen);
        out.push(self.hops);
        push_be32(&mut out, self.xid);
        push_be16(&mut out, self.seconds);
        push_be16(&mut out, self.flags);
        push_all(&mut out, &self.client_ip.v);
        push_all(&mut out, &self.your_ip.v);
        push_all(&mut out, &self.server_ip.v);
        push_all(&mut out, &self.gateway_ip.v);
        push_all(&mut out, self.client_hw_addr.as_slice());
        push_all(&mut out, self.server_name.as_slice());
        push_all(&mut out, self.file.as_slice());
        push_all(&mut out, self.options.as_slice());
        assert(out@ =~= self.spec_bytes());
        out
    }

    /// The header in the first 300 bytes of `m`.
    pub fn from_bytes(m: &[u8]) -> (h: DhcpHeader)
        requires
            m.len() >= DHCP_HEADER_SIZE,
        ensures
            h.wf(),
            h.spec_bytes() == m@.take(300),
    {
        let h = DhcpHeader {
            op: m[0],
            htype: m[1],
            hlen: m[2],
            hops: m[3],
            xid: read_be32(m, 4),
            seconds: read_be16(m, 8),
            flags: read_be16(m, 10),
            client_ip: Ip4 { v: [m[12], m[13], m[14], m[15]] },
            your_ip: Ip4 { v: [m[16], m[17], m[18], m[19]] },
            server_ip: Ip4 { v: [m[20], m[21], m[22], m[23]] },
            gateway_ip: Ip4 { v: [m[24], m[25], m[26], m[27]] },
            client_hw_addr: copy_range(m, 28, 16),
            server_name: copy_range(m, 44, 64),
            file: copy_range(m, 108, 128),
            options: copy_range(m, DHCP_OPTIONS_OFFSET, DHCP_OPTIONS_SIZE),
        };
        proof {
            lemma_be32_bytes_roundtrip(m@[4], m@[5], m@[6], m@[7]);
            lemma_be16_bytes_roundtrip(m@[8], m@[9]);
            lemma_be16_bytes_roundtrip(m@[10], m@[11]);
            assert(h.spec_bytes() =~= m@.take(300));
        }
        h
    }
}

/// The bytes `off .. off + len` of `m`, copied.
fn copy_range(m: &[u8], off: usize, len: usize) -> (r: Vec<u8>)
    requires
        off + len <= m.len(),
    ensures
        r@ == m@.subrange(off as int, off + len),
{
    let mut r: Vec<u8> = Vec::new();
    push_all(&mut r, crate::net::ip::slice_at(m, off, len));
    r
}

/// The big-endian forms of zero.
proof fn lemma_zero_words()
    ensures
        be16(0) == seq![0u8, 0],
        be32(0) == seq![0u8, 0, 0, 0],
{
    assert((0u16 >> 8u16) as u8 == 0 && (0u16 & 0xff) as u8 == 0 && (0u32 >> 24u32) as u8 == 0
        && ((0u32 >> 16u32) & 0xff) as u8 == 0 && ((0u32 >> 8u32) & 0xff) as u8 == 0 && (0u32
        & 0xff) as u8 == 0) by (bit_vector);
    assert(be16(0) =~= seq![0u8, 0]);
    assert(be32(0) =~= seq![0u8, 0, 0, 0]);
}


/// The first option with code `code` in the options field `opts`, walking
/// from `p`: where its data starts and how long it is. Pad bytes (0) are
/// skipped; the end mark (255), the end of the field, or an option that runs
/// past it, ends the walk.
pub open spec fn find_option(opts: Seq<u8>, p: int, code: u8) -> Option<(int, int)>
    decreases opts.len() - p,
{
    if p < 0 || p >= opts.len() {
        None
    } else if opts[p] == 0 {
        find_option(opts, p + 1, code)
    } else if opts[p] == 255 || p + 1 >= opts.len() || p + 2 + opts[p + 1] > opts.len() {
        None
    } else if opts[p] == code {
        Some((p + 2, opts[p + 1] as int))
    } else {
        find_option(opts, p + 2 + opts[p + 1], code)
    }
}

/// The message type in the options field `opts`: the first byte of the
/// first option 53 after the magic cookie, when it names a type.
pub open spec fn message_type_of(opts: Seq<u8>) -> Option<DhcpOptMsgType> {
    match find_option(opts, 4, 53) {
        Some((s, l)) => if l > 0 {
            DhcpOptMsgType::spec_from_number(opts[s])
        } else {
            None
        },
        None => None,
    }
}

/// An option that the walk finds lies inside the field.
proof fn lemma_find_option_bounds(opts: Seq<u8>, p: int, code: u8)
    ensures
        find_option(opts, p, code) matches Some((s, l)) ==> 0 <= s && 0 <= l && s + l <= opts.len(),
    decreases opts.len() - p,
{
    if 0 <= p < opts.len() {
        if opts[p] == 0 {
            lemma_find_option_bounds(opts, p + 1, code);
        } else if !(opts[p] == 255 || p + 1 >= opts.len() || p + 2 + opts[p + 1] > opts.len()) && opts[p] != code {
            lemma_find_option_bounds(opts, p + 2 + opts[p + 1], code);
        }
    }
}

/// Walks the options field `opts` from after the magic cookie for the first
/// option with code `code`: where its data starts and how long it is.
pub fn find_option_in(opts: &[u8], code: u8) -> (r: Option<(usize, usize)>)
    ensures
        match r {
            Some((s, l)) => find_option(opts@, 4, code) == Some((s as int, l as int)),
            None => find_option(opts@, 4, code) is None,
        },
{
    let mut p: usize = 4;
    while p < opts.len()
        invariant
            4 <= p,
            find_option(opts@, p as int, code) == find_option(opts@, 4, code),
        decreases opts.len() - p,
    {
        let b = opts[p];
        if b == 0 {
            p = p + 1;
        } else {
            if b == 255 || p + 1 >= opts.len() {
                return None;
            }
            let l = opts[p + 1] as usize;
            if l > opts.len() - p - 2 {
                return None;
            }
            if b == code {
                return Some((p + 2, l));
            }
            p = p + 2 + l;
        }
    }
    None
}

impl DhcpHeader {
    /// The message type named in the options (see `message_type_of`).
    pub fn opt_message_type(&self) -> (r: Option<DhcpOptMsgType>)
        ensures
            r == message_type_of(self.options@),
    {
        proof {
            lemma_find_option_bounds(self.options@, 4, 53);
        }
        match find_option_in(self.options.as_slice(), 53) {
            Some((s, l)) => if l > 0 {
                DhcpOptMsgType::from_number(self.options[s])
            } else {
                None
            },
            None => None,
        }
    }
}

/// The name this host announces: "cykusz-os".
pub open spec fn host_name() -> Seq<u8> {
    seq![0x63u8, 0x79, 0x6b, 0x75, 0x73, 0x7a, 0x2d, 0x6f, 0x73]
}

/// The options of a message of type `typ` from the client with hardware
/// address `mac`, asking for `requested` if given: the magic cookie, the
/// message type, the client identifier, the host name, the requested
/// address, the parameter request list, the end mark and zeros.
pub open spec fn client_options(typ: DhcpOptMsgType, mac: Seq<u8>, requested: Option<Ip4>) -> Seq<u8> {
    let head = seq![0x63u8, 0x82, 0x53, 0x63] + seq![53u8, 1, typ.spec_number()] + (seq![61u8, 7, 1] + mac)
        + (seq![12u8, 9] + host_name() + seq![0u8]);
    let req = match requested {
        Some(ip) => seq![50u8, 4] + ip.v@,
        None => Seq::<u8>::empty(),
    };
    let body = head + req + seq![55u8, 4, 1, 3, 15, 6];
    body + seq![0xffu8] + zeros((63 - body.len()) as nat)
}

/// A message of type `typ` that the client with hardware address `mac`
/// broadcasts: a boot request for Ethernet, with this client's transaction
/// identifier, the broadcast flag, no addresses, and its options.
pub open spec fn client_message(typ: DhcpOptMsgType, mac: Seq<u8>, requested: Option<Ip4>) -> Seq<u8> {
    seq![1u8, 1, 6, 0] + be32(DHCP_XID) + be16(0) + be16(0x8000) + zeros(16) + (mac + zeros(10)) + zeros(64)
        + zeros(128) + client_options(typ, mac, requested)
}

/// The frame that carries such a message from port 68 to port 67 of the
/// broadcast address.
pub open spec fn client_frame(typ: DhcpOptMsgType, mac: Seq<u8>, requested: Option<Ip4>, src_ip: Ip4) -> Seq<u8> {
    overwrite(
        crate::net::udp::udp_frame(68, 67, 300, Ip4 { v: [255, 255, 255, 255] }, src_ip, mac),
        42,
        client_message(typ, mac, requested),
    )
}

/// Writing bytes at the end of what was written, over zeros, keeps the rest zero.
proof fn lemma_put_on_zeros(prefix: Seq<u8>, bytes: Seq<u8>, n: nat)
    requires
        bytes.len() <= n,
    ensures
        overwrite(prefix + zeros(n), prefix.len() as int, bytes) == (prefix + bytes) + zeros((n - bytes.len()) as nat),
{
    assert(overwrite(prefix + zeros(n), prefix.len() as int, bytes) =~= (prefix + bytes) + zeros(
        (n - bytes.len()) as nat,
    ));
}

/// The header of a message of type `typ` from the client with hardware
/// address `mac`, asking for `requested` if given.
fn client_header(typ: DhcpOptMsgType, mac: &[u8; 6], requested: Option<Ip4>) -> (h: DhcpHeader)
    ensures
        h.spec_bytes() == client_message(typ, mac@, requested),
{
    let mut h = DhcpHeader::zeroed();
    h.init(mac);
    h.set_op(DhcpType::BootRequest);
    h.set_flags_broadcast(true);
    h.set_client_ip(Ip4::empty());
    h.set_your_ip(Ip4::empty());
    h.set_server_ip(Ip4::empty());
    h.set_gateway_ip(Ip4::empty());
    let name: [u8; 9] = [0x63, 0x79, 0x6b, 0x75, 0x73, 0x7a, 0x2d, 0x6f, 0x73];
    assert(name@ =~= host_name());
    let b = h.options_builder();
    let ghost e: Seq<u8> = Seq::empty();
    proof {
        assert(b.opts@ =~= e + zeros(64));
    }
    let b = b.set_magic_cookie();
    let ghost a1 = seq![0x63u8, 0x82, 0x53, 0x63];
    proof {
        lemma_put_on_zeros(e, a1, 64);
        assert(e + a1 =~= a1);
    }
    let b = b.set_message_type(typ);
    let ghost a2 = a1 + seq![53u8, 1, typ.spec_number()];
    proof {
        lemma_put_on_zeros(a1, seq![53u8, 1, typ.spec_number()], 60);
    }
    let b = b.set_client_identifier(mac);
    let ghost a3 = a2 + (seq![61u8, 7, 1] + mac@);
    proof {
        lemma_put_on_zeros(a2, seq![61u8, 7, 1] + mac@, 57);
    }
    let b = b.set_host_name(&name);
    let ghost a4 = a3 + (seq![12u8, 9] + host_name() + seq![0u8]);
    proof {
        assert(seq![12u8, 9u8] =~= seq![12u8, name@.len() as u8]);
        lemma_put_on_zeros(a3, seq![12u8, 9] + host_name() + seq![0u8], 48);
    }
    let ghost a5 = a4 + match requested {
        Some(ip) => seq![50u8, 4] + ip.v@,
        None => Seq::<u8>::empty(),
    };
    let b = match requested {
        Some(ip) => {
            let b = b.set_requested_ip(ip);
            proof {
                lemma_put_on_zeros(a4, seq![50u8, 4] + ip.v@, 36);
            }
            b
        },
        None => {
            proof {
                assert(a5 =~= a4);
            }
            b
        },
    };
    let b = b.set_parameter_request_list();
    let ghost a6 = a5 + seq![55u8, 4, 1, 3, 15, 6];
    proof {
        lemma_put_on_zeros(a5, seq![55u8, 4, 1, 3, 15, 6], (64 - a5.len()) as nat);
        assert(b.opts@.take(b.pos as int) =~= a6);
    }
    let opts = b.finish();
    h.options = opts;
    proof {
        lemma_zero_words();
        assert(h.options@ =~= client_options(typ, mac@, requested));
        assert(h.client_ip.v@ + h.your_ip.v@ + h.server_ip.v@ + h.gateway_ip.v@ =~= zeros(16));
        assert(h.spec_bytes() =~= client_message(typ, mac@, requested));
    }
    h
}

/// The frame that carries `header` (a client message) to the broadcast address.
fn client_packet(h: &DhcpHeader, own_mac: &[u8; 6], src_ip: Ip4) -> (frame: Vec<u8>)
    requires
        h.spec_bytes().len() == 300,
    ensures
        frame@ == overwrite(
            crate::net::udp::udp_frame(68, 67, 300, Ip4 { v: [255, 255, 255, 255] }, src_ip, own_mac@),
            42,
            h.spec_bytes(),
        ),
{
    let bc = Ip4 { v: [255, 255, 255, 255] };
    let mut frame = crate::net::udp::create_packet(68, 67, DHCP_HEADER_SIZE, bc, src_ip, own_mac);
    let bytes = h.to_bytes();
    crate::net::util::write_bytes_at(&mut frame, 42, bytes.as_slice());
    frame
}

/// The frame of the discovery that this host (with `own_mac`, at `src_ip`)
/// broadcasts to find a server.
pub fn send_discovery(own_mac: &[u8; 6], src_ip: Ip4) -> (frame: Vec<u8>)
    ensures
        frame@ == client_frame(DhcpOptMsgType::DhcpDiscover, own_mac@, None, src_ip),
{
    let h = client_header(DhcpOptMsgType::DhcpDiscover, own_mac, None);
    client_packet(&h, own_mac, src_ip)
}

/// The frame of the request for the offered address `requested_ip`.
pub fn send_request(requested_ip: Ip4, own_mac: &[u8; 6], src_ip: Ip4) -> (frame: Vec<u8>)
    ensures
        frame@ == client_frame(DhcpOptMsgType::DhcpRequest, own_mac@, Some(requested_ip), src_ip),
{
    let h = client_header(DhcpOptMsgType::DhcpRequest, own_mac, Some(requested_ip));
    client_packet(&h, own_mac, src_ip)
}

/// What a server's message comes to.
pub enum DhcpAnswer {
    /// An offer: broadcast this request for the offered address.
    Request(Vec<u8>),
    /// The server approved the request.
    Approved,
    /// A message of a type the client does not expect.
    Unexpected(DhcpOptMsgType),
    /// No message type: nothing to do.
    Ignored,
}

/// Reads a server's message `m` (the UDP payload): an offer is answered by
/// a request for the offered address, an acknowledgement approves it, any
/// other type is unexpected. A message shorter than the header, or without
/// a type, is ignored.
pub fn process_packet(m: &[u8], own_mac: &[u8; 6], src_ip: Ip4) -> (r: DhcpAnswer)
    ensures
        m.len() < DHCP_HEADER_SIZE ==> r is Ignored,
        m.len() >= DHCP_HEADER_SIZE ==> ({
            let opts = m@.subrange(236, 300);
            let offered = Ip4 { v: [m@[16], m@[17], m@[18], m@[19]] };
            match message_type_of(opts) {
                None => r is Ignored,
                Some(t) => if t == DhcpOptMsgType::DhcpOffer {
                    r matches DhcpAnswer::Request(f) && f@ == client_frame(
                        DhcpOptMsgType::DhcpRequest,
                        own_mac@,
                        Some(offered),
                        src_ip,
                    )
                } else if t == DhcpOptMsgType::DhcpAck {
                    r is Approved
                } else {
                    r matches DhcpAnswer::Unexpected(u) && u == t
                },
            }
        }),
{
    if m.len() < DHCP_HEADER_SIZE {
        return DhcpAnswer::Ignored;
    }
    let header = DhcpHeader::from_bytes(m);
    proof {
        assert(header.options@ =~= m@.subrange(236, 300)) by {
            assert(header.options@ =~= header.spec_bytes().subrange(236, 300));
        }
        assert(header.your_ip.v@ =~= m@.subrange(16, 20)) by {
            assert(header.your_ip.v@ =~= header.spec_bytes().subrange(16, 20));
        }
    }
    let offered = Ip4 { v: [m[16], m[17], m[18], m[19]] };
    match header.opt_message_type() {
        None => DhcpAnswer::Ignored,
        Some(t) => match t {
            DhcpOptMsgType::DhcpOffer => DhcpAnswer::Request(send_request(offered, own_mac, src_ip)),
            DhcpOptMsgType::DhcpAck => DhcpAnswer::Approved,
            _ => DhcpAnswer::Unexpected(t),
        },
    }
}


/// What the client sends names the type it was built with: the message
/// type read from the options of a client message (`message_type_of`) is
/// the one given to `client_options`.
pub proof fn lemma_client_message_type(typ: DhcpOptMsgType, mac: Seq<u8>, requested: Option<Ip4>)
    requires
        mac.len() == 6,
    ensures
        message_type_of(client_options(typ, mac, requested)) == Some(typ),
{
    let o = client_options(typ, mac, requested);
    assert(o.len() == 64);
    assert(o[4] == 53u8 && o[5] == 1u8 && o[6] == typ.spec_number());
    assert(find_option(o, 4, 53) == Some((6int, 1int)));
}

} // verus!
