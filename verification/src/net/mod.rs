//! The network stack: headers, address resolution and port tables.
pub mod arp;
pub mod dhcp;
pub mod dns;
pub mod eth;
pub mod icmp;
pub mod ip;
pub mod packet;
pub mod ports;
pub mod tcp;
pub mod udp;
pub mod unix;
pub mod util;

use vstd::prelude::*;
use crate::net::ip::Ip4;
use crate::utils::buffer::FsError;

verus! {

/// How a network device is configured.
#[derive(Debug, Copy, Clone)]
pub struct NetDeviceData {
    pub ip: Ip4,
    pub default_gateway: Ip4,
    pub subnet: Ip4,
    pub dns: Ip4,
}

impl NetDeviceData {
    /// An unconfigured device: every address 0.0.0.0.
    pub fn new() -> (d: NetDeviceData)
        ensures
            d.ip.v@ == seq![0u8, 0, 0, 0] && d.default_gateway.v@ == seq![0u8, 0, 0, 0]
                && d.subnet.v@ == seq![0u8, 0, 0, 0] && d.dns.v@ == seq![0u8, 0, 0, 0],
    {
        NetDeviceData {
            ip: Ip4::empty(),
            default_gateway: Ip4::empty(),
            subnet: Ip4::empty(),
            dns: Ip4::empty(),
        }
    }

    /// Sets the device's address, gateway, subnet mask and name server.
    pub fn configure(&mut self, ip: Ip4, default_gw: Ip4, subnet: Ip4, dns: Ip4)
        ensures
            final(self).ip == ip && final(self).default_gateway == default_gw && final(self).subnet
                == subnet && final(self).dns == dns,
    {
        self.ip = ip;
        self.default_gateway = default_gw;
        self.subnet = subnet;
        self.dns = dns;
    }
}


/// The interface request for the list of interfaces.
pub const SIOCGIFCONF: usize = 0x8912;
/// The interface request for an interface's flags.
pub const SIOCGIFFLAGS: usize = 0x8913;
/// The flag of an interface that is up.
pub const IFF_UP: u16 = 1;

/// The answer to an interface request.
#[derive(Debug, Copy, Clone)]
pub enum IfAnswer {
    /// The list of interfaces: one, named "eth0", with the device's IPv4
    /// address.
    Conf(Ip4),
    /// The interface's flags.
    Flags(u16),
}

impl NetDeviceData {
    /// Answers the interface request `cmd`: the interface list holds this
    /// device with its address, and the device is up; any other request is
    /// refused with `NoTty`. (The caller writes the answer into the
    /// request's memory.)
    pub fn ioctl(&self, cmd: usize) -> (r: Result<IfAnswer, FsError>)
        ensures
            cmd == SIOCGIFCONF ==> r == Ok::<IfAnswer, FsError>(IfAnswer::Conf(self.ip)),
            cmd == SIOCGIFFLAGS ==> r == Ok::<IfAnswer, FsError>(IfAnswer::Flags(IFF_UP)),
            cmd != SIOCGIFCONF && cmd != SIOCGIFFLAGS ==> r == Err::<IfAnswer, FsError>(FsError::NoTty),
    {
        if cmd == SIOCGIFCONF {
            Ok(IfAnswer::Conf(self.ip))
        } else if cmd == SIOCGIFFLAGS {
            Ok(IfAnswer::Flags(IFF_UP))
        } else {
            Err(FsError::NoTty)
        }
    }
}

/// The registered network devices, and the default one.
pub struct NetDevices {
    pub devices: Vec<NetDeviceData>,
    pub default: Option<usize>,
}

impl NetDevices {
    /// No device yet.
    pub fn new() -> (d: NetDevices)
        ensures
            d.devices@.len() == 0,
            d.default is None,
    {
        NetDevices { devices: Vec::new(), default: None }
    }

    /// Registers a new, unconfigured device and returns its index (which the
    /// receiving thread of its driver is started with); the first one
    /// becomes the default.
    pub fn register_net_driver(&mut self) -> (idx: usize)
        requires
            old(self).devices@.len() < usize::MAX,
        ensures
            idx == old(self).devices@.len(),
            final(self).devices@.len() == old(self).devices@.len() + 1,
            final(self).devices@.take(idx as int) == old(self).devices@,
            final(self).devices@[idx as int].ip.v@ == seq![0u8, 0, 0, 0]
                && final(self).devices@[idx as int].default_gateway.v@ == seq![0u8, 0, 0, 0]
                && final(self).devices@[idx as int].subnet.v@ == seq![0u8, 0, 0, 0]
                && final(self).devices@[idx as int].dns.v@ == seq![0u8, 0, 0, 0],
            final(self).default == match old(self).default {
                Some(d) => Some(d),
                None => Some(idx),
            },
    {
        let idx = self.devices.len();
        self.devices.push(NetDeviceData::new());
        if self.default.is_none() {
            self.default = Some(idx);
        }
        idx
    }
}

} // verus!
