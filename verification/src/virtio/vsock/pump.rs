//! Polling the host's ends of the connections.
use crate::virtio::vsock::connections::{
    self, host_packet, BridgeView, Connection, HostReadError, HostVsockListener, HostVsockStream,
    VsockBridge, VsockConnectionState, HOST_READ_CHUNK,
};
use crate::virtio::vsock::op;
use crate::virtio::vsock::packet::PacketView;
use crate::virtio::vsock::shutdown_flags;
use vstd::prelude::*;

verus! {

/// How polling all connections may turn `s` into `t`, with `queued` packets for the guest.
pub open spec fn bridge_pumped<S: HostVsockStream>(
    s: BridgeView<S>,
    t: BridgeView<S>,
    queued: nat,
) -> bool {
    exists|kept: Seq<Connection<S>>, packets: Seq<PacketView>|
        #[trigger] connections::pumped(s.connections, kept, packets) && queued == packets.len()
            && t == BridgeView {
            connections: kept,
            pending: connections::enqueued_all(s.pending, packets),
            ..s
        }
}

/// The connections without those that are listed.
pub open spec fn removed_all<S>(
    c: Seq<Connection<S>>,
    list: Seq<VsockConnectionState>,
) -> Seq<Connection<S>>
    decreases list.len(),
{
    if list.len() == 0 {
        c
    } else {
        connections::removed(removed_all(c, list.drop_last()), list.last().key_of())
    }
}

/// One RST for each of the connections.
pub open spec fn resets(list: Seq<VsockConnectionState>) -> Seq<PacketView> {
    Seq::new(
        list.len(),
        |i: int|
            connections::host_sends(list[i].key_of(), op::RST, 0, Seq::empty(), list[i].fwd_cnt),
    )
}

/// The bridge after connections of an earlier life were reset: they are gone, and the guest is
/// to be told so.
pub open spec fn connections_reset<S>(
    s: BridgeView<S>,
    list: Seq<VsockConnectionState>,
) -> BridgeView<S> {
    BridgeView {
        connections: removed_all(s.connections, list),
        pending: connections::enqueued_all(s.pending, resets(list)),
        ..s
    }
}

/// What is saved of all connections.
pub open spec fn saved_all<S>(c: Seq<Connection<S>>) -> Seq<VsockConnectionState> {
    Seq::new(c.len(), |i: int| c[i].saved())
}

impl<L: HostVsockListener> VsockBridge<L> {
    /// Polls the host's end of every established connection once; returns how many packets were
    /// made of what came.
    pub fn pump(&mut self) -> (queued: usize)
        requires
            old(self)@.wf(),
        ensures
            bridge_pumped(old(self)@, final(self)@, queued as nat),
            final(self)@.wf(),
            final(self).connector() == old(self).connector(),
    {
        let ghost all = self.connections@;
        let ghost waiting = self@.pending;
        let ghost mut packets: Seq<PacketView> = Seq::empty();
        let mut rest: Vec<Connection<L::Stream>> = Vec::new();
        std::mem::swap(&mut rest, &mut self.connections);
        let mut queued: usize = 0;
        assert(rest@ =~= all.skip(0));
        assert(self.connections@ =~= Seq::empty());
        assert(all.take(0) =~= Seq::empty());
        let ghost mut i: int = 0;
        while rest.len() > 0
            invariant
                0 <= i <= all.len(),
                all.len() <= connections::MAX_CONNECTIONS,
                rest@ =~= all.skip(i),
                connections::keys_distinct(all),
                self@.wf(),
                self.connections@.len() <= i,
                self.connector() == old(self).connector(),
                self@.dialed == old(self)@.dialed,
                forall|j: int|
                    0 <= j < self.connections@.len() ==> connections::has_key(
                        all.take(i),
                        (#[trigger] self.connections@[j]).key,
                    ),
                connections::pumped(all.take(i), self.connections@, packets),
                self@.pending == connections::enqueued_all(waiting, packets),
                queued == packets.len(),
                queued <= i,
            decreases rest@.len(),
        {
            let ghost kept0 = self.connections@;
            let ghost packets0 = packets;
            let mut conn = rest.remove(0);
            let ghost first = conn;
            proof {
                assert(first == all[i]);
                assert(all.take(i + 1).drop_last() =~= all.take(i));
                assert(all.take(i + 1).last() == first);
                assert(!connections::has_key(all.take(i), first.key)) by {
                    if connections::has_key(all.take(i), first.key) {
                        let j = connections::slot(all.take(i), first.key);
                        assert(all.take(i)[j].key == first.key);
                        assert(all[j].key != all[i].key);
                    }
                }
                assert forall|key: connections::ConnectionKey|
                    connections::has_key(all.take(i), key) implies #[trigger] connections::has_key(
                    all.take(i + 1),
                    key,
                ) by {
                    let j = connections::slot(all.take(i), key);
                    assert(all.take(i + 1)[j] == all.take(i)[j]);
                }
                assert(connections::has_key(all.take(i + 1), first.key)) by {
                    assert(all.take(i + 1)[i].key == first.key);
                }
            }
            let mut keep = true;
            let mut packet = None;
            if conn.established {
                let r = conn.stream.read_chunk(HOST_READ_CHUNK);
                assert(first.stream.read_gives(
                    HOST_READ_CHUNK,
                    connections::bytes_read(r),
                    conn.stream,
                ));
                match r {
                    Ok(data) => {
                        if data.len() == 0 {
                            let none: Vec<u8> = Vec::new();
                            assert(none@ =~= Seq::<u8>::empty());
                            packet =
                            Some(
                                host_packet(
                                    conn.key,
                                    op::SHUTDOWN,
                                    shutdown_flags::RCV,
                                    none,
                                    conn.fwd_cnt,
                                ),
                            );
                            keep = false;
                        } else {
                            // The count is that of bytes received from the guest, not of bytes
                            // sent to it: it stays as it is.
                            packet = Some(host_packet(conn.key, op::RW, 0, data, conn.fwd_cnt));
                        }
                    },
                    Err(HostReadError::WouldBlock) => {},
                    Err(HostReadError::Interrupted) => {},
                    Err(HostReadError::Other) => {
                        let none: Vec<u8> = Vec::new();
                        assert(none@ =~= Seq::<u8>::empty());
                        packet = Some(host_packet(conn.key, op::RST, 0, none, conn.fwd_cnt));
                        keep = false;
                    },
                }
            }
            assert(conn.key == first.key);
            let ghost last = conn;
            if keep {
                self.connections.push(conn);
                proof {
                    let after = self.connections@;
                    assert forall|a: int, b: int| 0 <= a < b < after.len() implies (#[trigger] after[a]).key != (
                    #[trigger] after[b]).key by {
                        assert(after[a] == kept0[a]);
                        if b < kept0.len() {
                            assert(after[b] == kept0[b]);
                        }
                    }
                }
            }
            let ghost kept = self.connections@;
            match packet {
                Some(packet) => {
                    proof {
                        packets = packets0.push(packet@);
                        assert(packets.drop_last() =~= packets0);
                    }
                    self.enqueue_rx(packet);
                    queued += 1;
                },
                None => {},
            }
            proof {
                assert(connections::conn_pumped(first, kept0, packets0, kept, packets));
                assert forall|j: int| 0 <= j < kept.len() implies connections::has_key(
                    all.take(i + 1),
                    (#[trigger] kept[j]).key,
                ) by {
                    if j < kept0.len() {
                        assert(kept[j] == kept0[j]);
                    } else {
                        assert(kept[j] == last);
                    }
                }
                assert(connections::pumped(all.take(i + 1), kept, packets));
                i = i + 1;
            }
        }
        assert(all.take(i) =~= all);
        queued
    }

    /// Drops connections of an earlier life and tells the guest that they are gone.
    pub fn reset_connections(&mut self, list: &[VsockConnectionState])
        requires
            old(self)@.wf(),
        ensures
            final(self)@ == connections_reset(old(self)@, list@),
            final(self)@.wf(),
            final(self).connector() == old(self).connector(),
    {
        let ghost s = self@;
        let mut i: usize = 0;
        assert(list@.take(0) =~= Seq::empty());
        while i < list.len()
            invariant
                i <= list@.len(),
                self@ == (BridgeView {
                    connections: removed_all(s.connections, list@.take(i as int)),
                    ..s
                }),
                self@.wf(),
                self.connector() == old(self).connector(),
            decreases list@.len() - i,
        {
            assert(list@.take(i + 1).drop_last() =~= list@.take(i as int));
            self.remove(&list[i].key());
            i += 1;
        }
        assert(list@.take(i as int) =~= list@);
        let ghost rsts = resets(list@);
        let mut j: usize = 0;
        assert(rsts.take(0) =~= Seq::empty());
        while j < list.len()
            invariant
                j <= list@.len(),
                rsts == resets(list@),
                self@ == (BridgeView {
                    connections: removed_all(s.connections, list@),
                    pending: connections::enqueued_all(s.pending, rsts.take(j as int)),
                    ..s
                }),
                self@.wf(),
                self.connector() == old(self).connector(),
            decreases list@.len() - j,
        {
            assert(rsts.take(j + 1).drop_last() =~= rsts.take(j as int));
            let none: Vec<u8> = Vec::new();
            assert(none@ =~= Seq::<u8>::empty());
            self.enqueue_rx(host_packet(list[j].key(), op::RST, 0, none, list[j].fwd_cnt));
            j += 1;
        }
        assert(rsts.take(j as int) =~= rsts);
    }

    /// What is saved of all connections.
    pub fn connection_states(&self) -> (r: Vec<VsockConnectionState>)
        ensures
            r@ == saved_all(self@.connections),
    {
        let mut r: Vec<VsockConnectionState> = Vec::new();
        let mut i: usize = 0;
        while i < self.connections.len()
            invariant
                i <= self.connections@.len(),
                r@ =~= saved_all(self.connections@).take(i as int),
            decreases self.connections@.len() - i,
        {
            let key = self.connections[i].key;
            r.push(
                VsockConnectionState {
                    guest_cid: key.guest_cid,
                    guest_port: key.guest_port,
                    host_port: key.host_port,
                    fwd_cnt: self.connections[i].fwd_cnt,
                },
            );
            i += 1;
        }
        assert(r@ =~= saved_all(self@.connections));
        r
    }
}

} // verus!
