//! Where each layer of a frame starts: a packet is a window into a frame.
use vstd::prelude::*;
use std::marker::PhantomData;

verus! {

/// A layer of the stack (Ethernet, IPv4, UDP, ...).
pub trait PacketKind {}

/// A layer whose header has a fixed size.
pub trait ConstPacketKind: PacketKind {
    /// The size of the layer's header.
    fn hsize() -> usize;
}

/// Where a packet's frame starts and how long it is, and where this layer starts.
pub trait PacketBaseTrait {
    /// Start of the whole frame.
    fn base_addr(&self) -> usize;

    /// Length of the whole frame.
    fn base_len(&self) -> usize;

    /// Start of this layer.
    fn addr(&self) -> usize;

    /// Length of this layer, header included.
    fn len(&self) -> usize;
}

/// A packet that knows its own header size.
pub trait PacketTrait: PacketBaseTrait {
    /// The size of this layer's header.
    fn header_size(&self) -> usize;
}

/// Moving from a layer to the one it carries.
pub trait PacketUpHierarchy<B: PacketKind>: PacketTrait {}

/// Moving from a layer to the one that carries it.
pub trait PacketDownHierarchy<B: PacketKind>: PacketBaseTrait {}

/// A layer with a header of type `H` at its start.
pub trait PacketHeader<H>: PacketBaseTrait {}

/// A window `addr..addr + len` into the frame `base_addr..base_addr + base_len`.
#[derive(Debug, Copy)]
pub struct Packet<T: PacketKind> {
    pub base_addr: usize,
    pub base_len: usize,
    pub addr: usize,
    pub len: usize,
    pub _p: PhantomData<T>,
}

impl<T: PacketKind> Clone for Packet<T> {
    fn clone(&self) -> (r: Self)
        ensures
            r == *self,
    {
        Packet::<T> {
            base_addr: self.base_addr,
            base_len: self.base_len,
            addr: self.addr,
            len: self.len,
            _p: PhantomData,
        }
    }
}

impl<T: PacketKind> PacketBaseTrait for Packet<T> {
    fn base_addr(&self) -> (r: usize)
        ensures
            r == self.base_addr,
    {
        self.base_addr
    }

    fn base_len(&self) -> (r: usize)
        ensures
            r == self.base_len,
    {
        self.base_len
    }

    fn addr(&self) -> (r: usize)
        ensures
            r == self.addr,
    {
        self.addr
    }

    fn len(&self) -> (r: usize)
        ensures
            r == self.len,
    {
        self.len
    }
}

impl<T: PacketKind> Packet<T> {
    /// A window covering the whole frame at `addr` of `len` bytes.
    pub fn new(addr: usize, len: usize) -> (p: Packet<T>)
        ensures
            p.base_addr == addr && p.base_len == len && p.addr == addr && p.len == len,
    {
        Packet::<T> { base_addr: addr, base_len: len, addr, len, _p: PhantomData }
    }

    fn new_base(base_addr: usize, base_len: usize, addr: usize, len: usize) -> (p: Packet<T>)
        ensures
            p.base_addr == base_addr && p.base_len == base_len && p.addr == addr && p.len == len,
    {
        Packet::<T> { base_addr, base_len, addr, len, _p: PhantomData }
    }

    /// The Ethernet window of the same frame.
    pub fn eth(&self) -> (p: Packet<crate::net::eth::Eth>)
        ensures
            p.base_addr == self.base_addr && p.base_len == self.base_len && p.addr
                == self.base_addr && p.len == self.base_len,
    {
        Packet::<crate::net::eth::Eth>::new(self.base_addr, self.base_len)
    }

    /// Gives the frame up; returns the Ethernet window that the driver frees.
    pub fn deallocate(self) -> (p: Packet<crate::net::eth::Eth>)
        ensures
            p.base_addr == self.base_addr && p.base_len == self.base_len && p.addr
                == self.base_addr && p.len == self.base_len,
    {
        self.eth()
    }

    /// The window of the layer carried after a header of `hs` bytes.
    pub fn upgrade<B: PacketKind>(&self, hs: usize) -> (p: Packet<B>)
        requires
            hs <= self.len,
            self.addr + hs <= usize::MAX,
        ensures
            p.base_addr == self.base_addr && p.base_len == self.base_len,
            p.addr == self.addr + hs && p.len == self.len - hs,
    {
        Packet::<B>::new_base(self.base_addr, self.base_len, self.addr + hs, self.len - hs)
    }

    /// The window of the layer that carries this one in a header of `amount` bytes.
    pub fn downgrade_by<B: PacketKind>(&self, amount: usize) -> (p: Packet<B>)
        requires
            amount <= self.addr,
            self.len + amount <= usize::MAX,
        ensures
            p.base_addr == self.base_addr && p.base_len == self.base_len,
            p.addr == self.addr - amount && p.len == self.len + amount,
    {
        Packet::<B>::new_base(self.base_addr, self.base_len, self.addr - amount, self.len + amount)
    }
}

/// Going up past a header and back down over it gives the same window.
pub proof fn lemma_upgrade_downgrade<T: PacketKind, B: PacketKind>(p: Packet<T>, q: Packet<B>, r: Packet<T>, hs: int)
    requires
        0 <= hs <= p.len,
        q.base_addr == p.base_addr && q.base_len == p.base_len && q.addr == p.addr + hs && q.len
            == p.len - hs,
        r.base_addr == q.base_addr && r.base_len == q.base_len && r.addr == q.addr - hs && r.len
            == q.len + hs,
    ensures
        r.base_addr == p.base_addr && r.base_len == p.base_len && r.addr == p.addr && r.len == p.len,
{
}

/// A frame handed over by a driver, with the driver's token for it.
#[derive(Debug, Copy, Clone)]
pub struct RecvPacket {
    pub packet: Packet<crate::net::eth::Eth>,
    pub id: usize,
}

} // verus!
