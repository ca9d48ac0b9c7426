//! Choosing the host port of a connection that the host starts.
use crate::virtio::vsock::connections::{
    self, Connection, ConnectionKey, HostVsockListener, VsockBridge, MAX_CONNECTIONS,
};
use vstd::prelude::*;

verus! {

pub const HOST_EPHEMERAL_PORT_START: u32 = 49152;

pub const HOST_EPHEMERAL_PORT_END: u32 = 65535;

/// The counter after `n` more ports.
pub open spec fn counter_after(next: u32, n: int) -> u32 {
    ((next + n) % 0x1_0000_0000) as u32
}

/// The port that the counter stands for: they go round in the ephemeral range.
pub open spec fn port_of(counter: u32) -> u32 {
    (49152 + counter % 16384) as u32
}

/// The port that is tried after `n` others is in use for that guest port.
pub open spec fn port_taken<S>(
    c: Seq<Connection<S>>,
    guest_cid: u64,
    guest_port: u32,
    next: u32,
    n: int,
) -> bool {
    connections::has_key(
        c,
        ConnectionKey { guest_cid, guest_port, host_port: port_of(counter_after(next, n)) },
    )
}

/// The first port that is free is the one tried after `n` others.
pub open spec fn first_free<S>(
    c: Seq<Connection<S>>,
    guest_cid: u64,
    guest_port: u32,
    next: u32,
    n: int,
) -> bool {
    &&& 0 <= n
    &&& !port_taken(c, guest_cid, guest_port, next, n)
    &&& forall|m: int| 0 <= m < n ==> #[trigger] port_taken(c, guest_cid, guest_port, next, m)
}

/// There are no more ports in use than connections.
proof fn lemma_taken_ports<S>(
    c: Seq<Connection<S>>,
    guest_cid: u64,
    guest_port: u32,
    next: u32,
    n: int,
)
    requires
        0 <= n <= 16384,
        forall|m: int| 0 <= m < n ==> #[trigger] port_taken(c, guest_cid, guest_port, next, m),
    ensures
        n <= c.len(),
{
    let tried = Seq::new(n as nat, |m: int| port_of(counter_after(next, m)));
    let used = Seq::new(c.len(), |i: int| c[i].key.host_port);
    assert forall|a: int, b: int| 0 <= a < b < n implies tried[a] != tried[b] by {
        assert(counter_after(next, a) % 16384 == (next + a) % 16384);
        assert(counter_after(next, b) % 16384 == (next + b) % 16384);
    }
    assert(tried.no_duplicates());
    assert forall|p: u32| tried.to_set().contains(p) implies used.to_set().contains(p) by {
        let m = choose|m: int| 0 <= m < n && tried[m] == p;
        assert(port_taken(c, guest_cid, guest_port, next, m));
        let key = ConnectionKey { guest_cid, guest_port, host_port: p };
        let i = connections::slot(c, key);
        assert(c[i].key == key);
        assert(used[i] == p);
    }
    tried.unique_seq_to_set();
    used.lemma_cardinality_of_set();
    vstd::set_lib::lemma_len_subset(tried.to_set(), used.to_set());
}

impl<L: HostVsockListener> VsockBridge<L> {
    /// The first host port from the counter on that is free for that guest port, with the
    /// counter behind it.
    pub fn free_port(&self, guest_cid: u64, guest_port: u32, next: u32) -> (r: (u32, u32))
        requires
            self@.wf(),
            self@.connections.len() < MAX_CONNECTIONS,
        ensures
            exists|n: int|
                {
                    &&& #[trigger] first_free(
                        self@.connections,
                        guest_cid,
                        guest_port,
                        next,
                        n,
                    )
                    &&& r.0 == port_of(counter_after(next, n))
                    &&& r.1 == counter_after(next, n + 1)
                },
    {
        let span: u32 = HOST_EPHEMERAL_PORT_END - HOST_EPHEMERAL_PORT_START + 1;
        let mut counter: u32 = next;
        let ghost mut n: int = 0;
        loop
            invariant
                self@.wf(),
                self@.connections.len() < MAX_CONNECTIONS,
                span == 16384,
                0 <= n <= MAX_CONNECTIONS,
                counter == counter_after(next, n),
                forall|m: int|
                    0 <= m < n ==> #[trigger] port_taken(
                        self@.connections,
                        guest_cid,
                        guest_port,
                        next,
                        m,
                    ),
            decreases MAX_CONNECTIONS - n,
        {
            proof {
                lemma_taken_ports(self@.connections, guest_cid, guest_port, next, n);
            }
            let port: u32 = HOST_EPHEMERAL_PORT_START + counter % span;
            let after: u32 = counter.wrapping_add(1);
            assert(after == counter_after(next, n + 1));
            let key = ConnectionKey { guest_cid, guest_port, host_port: port };
            if self.find(&key).is_none() {
                assert(first_free(self@.connections, guest_cid, guest_port, next, n));
                return (port, after);
            }
            assert(port_taken(self@.connections, guest_cid, guest_port, next, n));
            counter = after;
            proof {
                n = n + 1;
            }
        }
    }
}

} // verus!
