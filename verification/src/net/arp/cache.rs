//! The cache of hardware addresses, keyed by IPv4 address.
use vstd::prelude::*;
use std::collections::BTreeMap;
use crate::net::ip::{Ip4, ip_key};
use crate::net::eth::{send_packet_to_mac, with_dst};
use crate::net::util::push_all;

verus! {

broadcast use {vstd::laws_cmp::group_laws_cmp, vstd::std_specs::btree::group_btree_axioms};

/// Whether an entry's address is known or still asked for.
#[derive(Debug, Copy, Clone, PartialEq, Eq, Structural)]
pub enum EntryStatus {
    Allocated,
    Pending,
}

/// A cached address, and the frames that wait for it while it is pending.
pub struct Entry {
    pub mac: [u8; 6],
    pub status: EntryStatus,
    pub packets: Vec<Vec<u8>>,
}

/// Addresses learnt from the network, keyed by the 32-bit number of the IPv4 address.
pub struct ArpCache {
    pub cache: BTreeMap<u32, Entry>,
}

/// Every queued frame is long enough to hold an Ethernet header, and a
/// known entry holds no queued frames.
pub open spec fn entry_wf(e: Entry) -> bool {
    &&& forall|i: int| 0 <= i < e.packets@.len() ==> #[trigger] e.packets@[i]@.len() >= 14
    &&& e.status == EntryStatus::Allocated ==> e.packets@.len() == 0
}

/// The frames of `pkts` with their destination set to `mac`.
pub open spec fn frames_to(pkts: Seq<Vec<u8>>, mac: Seq<u8>, out: Seq<Vec<u8>>) -> bool {
    &&& out.len() == pkts.len()
    &&& forall|i: int| 0 <= i < out.len() ==> #[trigger] out[i]@ == with_dst(pkts[i]@, mac)
}

impl ArpCache {
    /// Every entry is well formed.
    pub open spec fn wf(&self) -> bool {
        forall|k: u32| #[trigger] self.cache@.contains_key(k) ==> entry_wf(self.cache@[k])
    }

    /// The known address for the key, if the entry is not pending.
    pub open spec fn spec_get(&self, k: u32) -> Option<[u8; 6]> {
        if self.cache@.contains_key(k) && self.cache@[k].status == EntryStatus::Allocated {
            Some(self.cache@[k].mac)
        } else {
            None
        }
    }

    /// An empty cache.
    pub fn empty() -> (c: ArpCache)
        ensures
            c.wf(),
            c.cache@ == Map::<u32, Entry>::empty(),
    {
        ArpCache { cache: BTreeMap::new() }
    }

    /// Records `mac` for `ip`. A pending entry takes the address and becomes
    /// known; a known entry keeps its address. The frames that waited for the
    /// entry are returned, addressed to the entry's address, for sending.
    pub fn insert(&mut self, ip: Ip4, mac: &[u8; 6]) -> (out: Vec<Vec<u8>>)
        requires
            old(self).wf(),
        ensures
            final(self).wf(),
            final(self).cache@.contains_key(ip_key(ip)),
            final(self).cache@.remove(ip_key(ip)) == old(self).cache@.remove(ip_key(ip)),
            final(self).cache@[ip_key(ip)].status == EntryStatus::Allocated,
            final(self).cache@[ip_key(ip)].packets@.len() == 0,
            old(self).cache@.contains_key(ip_key(ip)) ==> {
                let e = old(self).cache@[ip_key(ip)];
                let m = if e.status == EntryStatus::Pending {
                    *mac
                } else {
                    e.mac
                };
                &&& final(self).cache@[ip_key(ip)].mac == m
                &&& frames_to(e.packets@, m@, out@)
            },
            !old(self).cache@.contains_key(ip_key(ip)) ==> final(self).cache@[ip_key(ip)].mac
                == *mac && out@.len() == 0,
    {
        let k = ip.key();
        let removed = self.cache.remove(&k);
        match removed {
            Some(mut v) => {
                let ghost e = v;
                assert(entry_wf(e));
                if v.status == EntryStatus::Pending {
                    v.mac = *mac;
                    v.status = EntryStatus::Allocated;
                }
                let mut pkts: Vec<Vec<u8>> = Vec::new();
                std::mem::swap(&mut pkts, &mut v.packets);
                let mut out: Vec<Vec<u8>> = Vec::new();
                let mut i: usize = 0;
                while i < pkts.len()
                    invariant
                        pkts@ == e.packets@,
                        entry_wf(e),
                        i <= pkts@.len(),
                        out@.len() == i,
                        forall|j: int| 0 <= j < i ==> #[trigger] out@[j]@ == with_dst(pkts@[j]@, v.mac@),
                    decreases pkts@.len() - i,
                {
                    let mut f: Vec<u8> = Vec::new();
                    push_all(&mut f, pkts[i].as_slice());
                    assert(f@ == pkts@[i as int]@);
                    send_packet_to_mac(&mut f, &v.mac);
                    out.push(f);
                    i = i + 1;
                }
                self.cache.insert(k, v);
                proof {
                    assert(self.cache@.remove(k) =~= old(self).cache@.remove(k));
                    assert forall|q: u32| #[trigger] self.cache@.contains_key(q) implies entry_wf(
                        self.cache@[q],
                    ) by {
                        if q != k {
                            assert(old(self).cache@.contains_key(q));
                        }
                    }
                }
                out
            },
            None => {
                self.cache.insert(
                    k,
                    Entry { mac: *mac, status: EntryStatus::Allocated, packets: Vec::new() },
                );
                proof {
                    assert(self.cache@.remove(k) =~= old(self).cache@.remove(k));
                    assert forall|q: u32| #[trigger] self.cache@.contains_key(q) implies entry_wf(
                        self.cache@[q],
                    ) by {
                        if q != k {
                            assert(old(self).cache@.contains_key(q));
                        }
                    }
                }
                Vec::new()
            },
        }
    }

    /// The known address for `ip`, if any.
    pub fn get(&self, ip: Ip4) -> (r: Option<[u8; 6]>)
        ensures
            r == self.spec_get(ip_key(ip)),
    {
        let k = ip.key();
        match self.cache.get(&k) {
            Some(v) => {
                if v.status == EntryStatus::Allocated {
                    return Some(v.mac);
                }
                None
            },
            None => None,
        }
    }

    /// Queues `packet` until the address of `ip` is known. A new entry is
    /// created pending; a pending entry gets the frame appended; a known
    /// entry is left alone and the frame is dropped.
    pub fn request(&mut self, ip: Ip4, packet: Vec<u8>)
        requires
            old(self).wf(),
            packet@.len() >= 14,
        ensures
            final(self).wf(),
            final(self).cache@.contains_key(ip_key(ip)),
            final(self).cache@.remove(ip_key(ip)) == old(self).cache@.remove(ip_key(ip)),
            !old(self).cache@.contains_key(ip_key(ip)) ==> {
                let e = final(self).cache@[ip_key(ip)];
                &&& e.status == EntryStatus::Pending
                &&& e.mac@ == seq![0u8, 0, 0, 0, 0, 0]
                &&& e.packets@.len() == 1
                &&& e.packets@[0]@ == packet@
            },
            old(self).cache@.contains_key(ip_key(ip)) && old(self).cache@[ip_key(ip)].status
                == EntryStatus::Pending ==> {
                let e = final(self).cache@[ip_key(ip)];
                let o = old(self).cache@[ip_key(ip)];
                &&& e.status == EntryStatus::Pending
                &&& e.mac == o.mac
                &&& e.packets@ == o.packets@.push(packet)
            },
            old(self).cache@.contains_key(ip_key(ip)) && old(self).cache@[ip_key(ip)].status
                == EntryStatus::Allocated ==> final(self).cache@ == old(self).cache@,
    {
        let k = ip.key();
        let removed = self.cache.remove(&k);
        match removed {
            Some(mut v) => {
                let ghost o = v;
                if v.status == EntryStatus::Pending {
                    v.packets.push(packet);
                }
                self.cache.insert(k, v);
                proof {
                    assert(self.cache@.remove(k) =~= old(self).cache@.remove(k));
                    if o.status == EntryStatus::Allocated {
                        assert(self.cache@ =~= old(self).cache@);
                    }
                    assert forall|q: u32| #[trigger] self.cache@.contains_key(q) implies entry_wf(
                        self.cache@[q],
                    ) by {
                        if q != k {
                            assert(old(self).cache@.contains_key(q));
                        } else {
                            assert(entry_wf(o));
                        }
                    }
                }
            },
            None => {
                let mut vec: Vec<Vec<u8>> = Vec::new();
                vec.push(packet);
                self.cache.insert(
                    k,
                    Entry { mac: [0, 0, 0, 0, 0, 0], status: EntryStatus::Pending, packets: vec },
                );
                proof {
                    assert(self.cache@.remove(k) =~= old(self).cache@.remove(k));
                    assert forall|q: u32| #[trigger] self.cache@.contains_key(q) implies entry_wf(
                        self.cache@[q],
                    ) by {
                        if q != k {
                            assert(old(self).cache@.contains_key(q));
                        }
                    }
                }
            },
        }
    }
}

/// Records `mac` for `ip` in `cache`; returns the frames that waited for it.
pub fn insert(cache: &mut ArpCache, ip: Ip4, mac: &[u8; 6]) -> (out: Vec<Vec<u8>>)
    requires
        old(cache).wf(),
    ensures
        final(cache).wf(),
        final(cache).spec_get(ip_key(ip)) is Some,
        old(cache).spec_get(ip_key(ip)) is Some ==> final(cache).spec_get(ip_key(ip)) == old(
            cache,
        ).spec_get(ip_key(ip)),
        old(cache).spec_get(ip_key(ip)) is None ==> final(cache).spec_get(ip_key(ip)) == Some(*mac),
        forall|k: u32| k != ip_key(ip) ==> #[trigger] final(cache).spec_get(k) == old(cache).spec_get(k),
        old(cache).cache@.contains_key(ip_key(ip)) ==> frames_to(
            old(cache).cache@[ip_key(ip)].packets@,
            final(cache).spec_get(ip_key(ip))->0@,
            out@,
        ),
        !old(cache).cache@.contains_key(ip_key(ip)) ==> out@.len() == 0,
        final(cache).cache@[ip_key(ip)].packets@.len() == 0,
        final(cache).cache@.remove(ip_key(ip)) == old(cache).cache@.remove(ip_key(ip)),
{
    let out = cache.insert(ip, mac);
    proof {
        assert forall|k: u32| k != ip_key(ip) implies #[trigger] cache.spec_get(k) == old(cache).spec_get(k) by {
            assert(cache.cache@.remove(ip_key(ip)).contains_key(k) == old(cache).cache@.remove(ip_key(ip)).contains_key(k));
            if cache.cache@.contains_key(k) {
                assert(cache.cache@.remove(ip_key(ip))[k] == cache.cache@[k]);
                assert(old(cache).cache@.remove(ip_key(ip))[k] == old(cache).cache@[k]);
            }
        }
    }
    out
}

/// The known address for `ip` in `cache`, if any.
pub fn get(cache: &ArpCache, ip: Ip4) -> (r: Option<[u8; 6]>)
    ensures
        r == cache.spec_get(ip_key(ip)),
{
    cache.get(ip)
}

/// Queues `packet` in `cache` until the address of `ip` is known.
pub fn request_ip(cache: &mut ArpCache, ip: Ip4, packet: Vec<u8>)
    requires
        old(cache).wf(),
        packet@.len() >= 14,
    ensures
        final(cache).wf(),
        forall|k: u32| k != ip_key(ip) ==> #[trigger] final(cache).spec_get(k) == old(cache).spec_get(k),
        final(cache).spec_get(ip_key(ip)) == old(cache).spec_get(ip_key(ip)),
        old(cache).spec_get(ip_key(ip)) is None ==> {
            let e = final(cache).cache@[ip_key(ip)];
            &&& e.status == EntryStatus::Pending
            &&& e.packets@.len() > 0
            &&& e.packets@.last()@ == packet@
        },
        final(cache).cache@.remove(ip_key(ip)) == old(cache).cache@.remove(ip_key(ip)),
        !old(cache).cache@.contains_key(ip_key(ip)) ==> {
            let e = final(cache).cache@[ip_key(ip)];
            &&& e.status == EntryStatus::Pending
            &&& e.mac@ == seq![0u8, 0, 0, 0, 0, 0]
            &&& e.packets@.len() == 1
            &&& e.packets@[0]@ == packet@
        },
        old(cache).cache@.contains_key(ip_key(ip)) && old(cache).cache@[ip_key(ip)].status
            == EntryStatus::Pending ==> {
            let e = final(cache).cache@[ip_key(ip)];
            let o = old(cache).cache@[ip_key(ip)];
            &&& e.status == EntryStatus::Pending
            &&& e.mac == o.mac
            &&& e.packets@ == o.packets@.push(packet)
        },
        old(cache).spec_get(ip_key(ip)) is Some ==> final(cache).cache@ == old(cache).cache@,
{
    cache.request(ip, packet);
    proof {
        assert forall|k: u32| k != ip_key(ip) implies #[trigger] cache.spec_get(k) == old(cache).spec_get(k) by {
            assert(cache.cache@.remove(ip_key(ip)).contains_key(k) == old(cache).cache@.remove(ip_key(ip)).contains_key(k));
            if cache.cache@.contains_key(k) {
                assert(cache.cache@.remove(ip_key(ip))[k] == cache.cache@[k]);
                assert(old(cache).cache@.remove(ip_key(ip))[k] == old(cache).cache@[k]);
            }
        }
    }
}

/// A cache that knows the broadcast address 255.255.255.255 as ff:ff:ff:ff:ff:ff.
pub fn init() -> (c: ArpCache)
    ensures
        c.wf(),
        c.spec_get(0xffff_ffff) == Some([0xffu8, 0xff, 0xff, 0xff, 0xff, 0xff]),
        forall|k: u32| k != 0xffff_ffff ==> #[trigger] c.spec_get(k) is None,
{
    let mut c = ArpCache::empty();
    let bc = Ip4::limited_broadcast();
    let k = bc.key();
    assert(k == 0xffff_ffff) by {
        assert(crate::net::util::be32_value(255, 255, 255, 255) == 0xffff_ffff) by (bit_vector);
    }
    let _ = c.insert(bc, &[0xff, 0xff, 0xff, 0xff, 0xff, 0xff]);
    proof {
        assert forall|q: u32| q != 0xffff_ffff implies #[trigger] c.spec_get(q) is None by {
            assert(!c.cache@.remove(k).contains_key(q));
        }
    }
    c
}


/// What an insert records, a lookup answers: after `insert(ip, mac)` on an
/// address the cache did not know, or only waited for, `get(ip)` gives `mac`.
pub proof fn lemma_insert_then_get(before: ArpCache, after: ArpCache, ip: Ip4, mac: [u8; 6])
    requires
        after.cache@.contains_key(ip_key(ip)),
        after.cache@[ip_key(ip)].status == EntryStatus::Allocated,
        !before.cache@.contains_key(ip_key(ip)) || before.cache@[ip_key(ip)].status == EntryStatus::Pending
            ==> after.cache@[ip_key(ip)].mac == mac,
        !before.cache@.contains_key(ip_key(ip)) || before.cache@[ip_key(ip)].status == EntryStatus::Pending,
    ensures
        after.spec_get(ip_key(ip)) == Some(mac),
{
}

} // verus!
