//! Tables that map a local port to the service that owns it.
use vstd::prelude::*;
use std::collections::BTreeMap;

verus! {

broadcast use {vstd::laws_cmp::group_laws_cmp, vstd::std_specs::btree::group_btree_axioms};

/// The first port handed out to a socket that asks for any free port.
pub const EPHEMERAL_START: u32 = 49152;

/// The last port handed out to a socket that asks for any free port.
pub const EPHEMERAL_END: u32 = 65535;

/// Whether every port from `lo` up to but excluding `hi` is taken.
pub open spec fn all_taken<H>(m: Map<u32, H>, lo: int, hi: int) -> bool {
    forall|q: u32| lo <= q < hi ==> #[trigger] m.contains_key(q)
}

/// Registers `handler` on `port` unless the port is taken; says whether it was registered.
pub fn register_port<H>(handlers: &mut BTreeMap<u32, H>, port: u32, handler: H) -> (r: bool)
    ensures
        r == !old(handlers)@.contains_key(port),
        r ==> final(handlers)@ == old(handlers)@.insert(port, handler),
        !r ==> final(handlers)@ == old(handlers)@,
{
    if !handlers.contains_key(&port) {
        handlers.insert(port, handler);
        return true;
    }
    false
}

/// Registers `handler` on the lowest free ephemeral port and returns it, or
/// `None` when every ephemeral port is taken.
pub fn register_ephemeral_port<H>(handlers: &mut BTreeMap<u32, H>, handler: H) -> (r: Option<u32>)
    ensures
        match r {
            Some(p) => {
                &&& EPHEMERAL_START <= p <= EPHEMERAL_END
                &&& !old(handlers)@.contains_key(p)
                &&& all_taken(old(handlers)@, EPHEMERAL_START as int, p as int)
                &&& final(handlers)@ == old(handlers)@.insert(p, handler)
            },
            None => {
                &&& all_taken(old(handlers)@, EPHEMERAL_START as int, EPHEMERAL_END + 1)
                &&& final(handlers)@ == old(handlers)@
            },
        },
{
    let mut p: u32 = EPHEMERAL_START;
    while p <= EPHEMERAL_END
        invariant
            EPHEMERAL_START <= p <= EPHEMERAL_END + 1,
            handlers@ == old(handlers)@,
            all_taken(old(handlers)@, EPHEMERAL_START as int, p as int),
        decreases EPHEMERAL_END + 1 - p,
    {
        if !handlers.contains_key(&p) {
            handlers.insert(p, handler);
            return Some(p);
        }
        p = p + 1;
    }
    None
}

/// Removes the service on `port`; the port must be registered.
pub fn release_port<H>(handlers: &mut BTreeMap<u32, H>, port: u32)
    requires
        old(handlers)@.contains_key(port),
    ensures
        final(handlers)@ == old(handlers)@.remove(port),
{
    handlers.remove(&port);
}


/// Registering a service on a free port and then releasing the port gives
/// the table back.
pub proof fn lemma_register_release<H>(m: Map<u32, H>, port: u32, handler: H)
    requires
        !m.contains_key(port),
    ensures
        m.insert(port, handler).remove(port) == m,
{
    assert(m.insert(port, handler).remove(port) =~= m);
}

} // verus!
