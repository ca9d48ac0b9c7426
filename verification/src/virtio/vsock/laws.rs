//! What holds of packets that are delivered, refused and reset.
use crate::virtio::buffers::MemState;
use crate::virtio::regs::reg;
use crate::virtio::vqueue::{self, Pass, QueueConfig};
use crate::virtio::vsock::connections::{
    self, BridgeView, Connection, HostVsockListener, HostVsockStream, VsockConnectionState,
    VSOCK_HOST_CID,
};
use crate::virtio::vsock::op;
use crate::virtio::vsock::packet::{PacketView, VsockPacketHeader};
use crate::virtio::vsock::packet_type;
use crate::virtio::vsock::pump;
use crate::virtio::vsock::{self, RxWork, VsockCounts, VsockView};
use vstd::prelude::*;

verus! {

/// The counts after all of `packets` were delivered.
pub open spec fn delivered_all(c: VsockCounts, packets: Seq<PacketView>) -> VsockCounts
    decreases packets.len(),
{
    if packets.len() == 0 {
        c
    } else {
        delivered_all(c.delivered(packets[0].data.len() as u64), packets.skip(1))
    }
}

/// The first `n` packets that waited in `a` are gone in `b`, and were counted.
pub open spec fn first_delivered(a: RxWork, b: RxWork, n: int) -> bool {
    &&& 0 <= n <= a.pending.len()
    &&& b.pending == a.pending.skip(n)
    &&& b.counts == delivered_all(a.counts, a.pending.take(n))
}

proof fn lemma_none_delivered(a: RxWork)
    ensures
        first_delivered(a, a, 0),
{
    assert(a.pending.skip(0) =~= a.pending);
}

proof fn lemma_one_delivered(a: RxWork, b: RxWork, c: RxWork, n: int)
    requires
        a.pending.len() > 0,
        b.pending == a.pending.skip(1),
        b.counts == a.counts.delivered(a.pending[0].data.len() as u64),
        first_delivered(b, c, n),
    ensures
        first_delivered(a, c, n + 1),
{
    assert(a.pending.skip(1).skip(n) =~= a.pending.skip(n + 1));
    assert(a.pending.take(n + 1).skip(1) =~= a.pending.skip(1).take(n));
}

proof fn lemma_rx_pass(config: QueueConfig, target: u16, s: Pass<RxWork>, t: Pass<RxWork>) -> (n:
    int)
    requires
        vqueue::device_pass(vsock::rx_step(), config, target, s, t),
    ensures
        first_delivered(s.work, t.work, n),
        n <= t.pass.done - s.pass.done,
    decreases vqueue::idx_distance(s.pass.avail, target),
{
    let k = s.skipped(config, target);
    vqueue::lemma_skip_rejected(s.pass.mem.ram, config, s.pass.avail, target);
    lemma_none_delivered(s.work);
    if k.pass.avail != target {
        let head = vqueue::avail_head(k.pass.mem.ram, config, k.pass.avail);
        let chain = vqueue::chain_from(k.pass.mem.ram, config, head)->0;
        let step = vsock::rx_step();
        let (w, m, answer) = choose|w: RxWork, m: MemState, answer: Option<u32>|
            #[trigger] step(k.work, k.pass.mem, chain, w, m, answer) && match answer {
                None => t == k.worked(w, m),
                Some(len) => vqueue::device_pass(
                    step,
                    config,
                    target,
                    k.worked(w, m).completed(config, head, len),
                    t,
                ),
            };
        assert(vsock::rx_taken(k.work, k.pass.mem, chain.writable, w, m, answer));
        match answer {
            None => 0,
            Some(len) => {
                let next = k.worked(w, m).completed(config, head, len);
                let n = lemma_rx_pass(config, target, next, t);
                if w == k.work {
                    n
                } else {
                    lemma_one_delivered(s.work, w, t.work, n);
                    n + 1
                }
            },
        }
    } else {
        0
    }
}

/// Packets go to the guest in the order in which they came, each once, with none left out: those
/// that still wait are the ones behind the delivered. Each took a chain of its own, and no
/// connection is touched.
pub proof fn law_packets_are_delivered_in_order<S>(
    s: VsockView<S>,
    t: VsockView<S>,
    done: nat,
) -> (n: int)
    requires
        vsock::rx_processed(s, t, done),
    ensures
        0 <= n <= s.bridge.pending.len(),
        n <= done,
        t.bridge.pending == s.bridge.pending.skip(n),
        t.counts == delivered_all(s.counts, s.bridge.pending.take(n)),
        t.bridge.connections == s.bridge.connections,
        t.bridge.dialed == s.bridge.dialed,
{
    let work = RxWork { pending: s.bridge.pending, counts: s.counts };
    lemma_none_delivered(work);
    if s.can_process(0) && vqueue::queue_usable(s.ram->0, s.queues[0].config()) {
        let config = s.queues[0].config();
        let target = vqueue::avail_ring_idx(s.ram->0, config);
        let w = choose|w: Pass<RxWork>|
            #[trigger] vqueue::device_pass(vsock::rx_step(), config, target, s.rx_start(), w) && t
                == s.rx_finished(w) && done == w.pass.done;
        lemma_rx_pass(config, target, s.rx_start(), w)
    } else {
        0
    }
}

/// What the guest may not have: a packet that is no stream packet or has an unknown operation, a
/// REQUEST that is not for the host, or for which there is no listener or no room, and data on a
/// connection that there is not.
pub open spec fn unacceptable<L: HostVsockListener>(
    listener: Option<L>,
    s: BridgeView<L::Stream>,
    p: PacketView,
) -> bool {
    let h = p.header;
    ||| h.type_ != packet_type::STREAM
    ||| h.op > op::CREDIT_REQUEST
    ||| h.op == op::REQUEST && (h.dst_cid != VSOCK_HOST_CID || listener is None
        || connections::exceeds_cap(s.connections, connections::guest_key(h)))
    ||| h.op == op::RW && !connections::has_key(s.connections, connections::guest_key(h))
}

/// An unacceptable packet is answered with an RST to where it came from, as long as there is room
/// for an answer, and does nothing else: no connection changes, and nothing is dialed.
pub proof fn law_refusal_is_answered<L: HostVsockListener>(
    listener: Option<L>,
    s: BridgeView<L::Stream>,
    p: PacketView,
    t: BridgeView<L::Stream>,
)
    requires
        connections::tx_handled(listener, s, p, t),
        unacceptable(listener, s, p),
    ensures
        t.connections == s.connections,
        t.dialed == s.dialed,
        s.pending.len() >= connections::MAX_PENDING_RX ==> t.pending == s.pending,
        s.pending.len() < connections::MAX_PENDING_RX ==> {
            let answer = t.pending.last();
            &&& t.pending.drop_last() == s.pending
            &&& t.pending.len() == s.pending.len() + 1
            &&& answer.data.len() == 0
            &&& answer.header.type_ == packet_type::STREAM
            &&& answer.header.op == op::RST
            &&& answer.header.src_cid == VSOCK_HOST_CID
            &&& answer.header.src_port == p.header.dst_port
            &&& answer.header.dst_cid == p.header.src_cid
            &&& answer.header.dst_port == p.header.src_port
        },
{
    if s.pending.len() < connections::MAX_PENDING_RX {
        assert(t.pending.drop_last() =~= s.pending);
    }
}

proof fn lemma_all_enqueued(q: Seq<PacketView>, more: Seq<PacketView>)
    requires
        q.len() + more.len() <= connections::MAX_PENDING_RX,
    ensures
        connections::enqueued_all(q, more) == q + more,
    decreases more.len(),
{
    if more.len() == 0 {
        assert(q + more =~= q);
    } else {
        lemma_all_enqueued(q, more.drop_last());
        assert((q + more.drop_last()).push(more.last()) =~= q + more);
    }
}

proof fn lemma_none_to_remove<S>(list: Seq<VsockConnectionState>)
    ensures
        pump::removed_all(Seq::<Connection<S>>::empty(), list) == Seq::<Connection<S>>::empty(),
    decreases list.len(),
{
    if list.len() > 0 {
        lemma_none_to_remove::<S>(list.drop_last());
    }
}

/// A device that took back what `a` saved and then resets the saved connections has none, and
/// what waits for the guest is one RST for each connection that `a` had, and nothing else.
pub proof fn law_restored_connections_are_reset<S>(a: VsockView<S>, b: VsockView<S>)
    requires
        a.bridge.wf(),
    ensures
        ({
            let saved = pump::saved_all(a.bridge.connections);
            let r = b.restored(a.regs, a.queues, a.saved_positions());
            let t = pump::connections_reset(r.bridge, saved);
            &&& t.connections.len() == 0
            &&& t.pending == pump::resets(saved)
            &&& t.pending.len() == a.bridge.connections.len()
        }),
{
    let saved = pump::saved_all(a.bridge.connections);
    lemma_none_to_remove::<S>(saved);
    lemma_all_enqueued(Seq::empty(), pump::resets(saved));
    assert(Seq::<PacketView>::empty() + pump::resets(saved) =~= pump::resets(saved));
}

/// The packet is one from the host on the connection, carries no more than one read gives, and
/// tells the guest how many of its bytes the host has taken.
pub open spec fn speaks_for<S>(p: PacketView, conn: Connection<S>) -> bool {
    &&& conn.established
    &&& p.header.type_ == packet_type::STREAM
    &&& p.header.src_cid == VSOCK_HOST_CID
    &&& p.header.src_port == conn.key.host_port
    &&& p.header.dst_cid == conn.key.guest_cid
    &&& p.header.dst_port == conn.key.guest_port
    &&& p.header.fwd_cnt == conn.fwd_cnt
    &&& p.data.len() <= connections::HOST_READ_CHUNK
}

/// The connection is the one it was but for its stream.
pub open spec fn same_but_stream<S>(a: Connection<S>, b: Connection<S>) -> bool {
    b == Connection { stream: b.stream, ..a }
}

/// Polling the host's ends makes at most one packet for each connection, each of them on an
/// established connection and with the credit that the connection has. What came from the host
/// does not change that credit, nor anything else of a connection that is kept. A connection that
/// the guest has not accepted yet is left alone.
pub proof fn law_polling_keeps_credit<S: HostVsockStream>(
    c: Seq<Connection<S>>,
    kept: Seq<Connection<S>>,
    packets: Seq<PacketView>,
)
    requires
        connections::pumped(c, kept, packets),
    ensures
        packets.len() <= c.len(),
        kept.len() <= c.len(),
        forall|j: int|
            0 <= j < packets.len() ==> exists|i: int|
                0 <= i < c.len() && speaks_for(#[trigger] packets[j], #[trigger] c[i]),
        forall|j: int|
            0 <= j < kept.len() ==> exists|i: int|
                0 <= i < c.len() && same_but_stream(#[trigger] c[i], #[trigger] kept[j]),
        forall|i: int|
            0 <= i < c.len() && !(#[trigger] c[i]).established ==> kept.contains(c[i]),
    decreases c.len(),
{
    if c.len() > 0 {
        let (kept0, packets0) = choose|kept0: Seq<Connection<S>>, packets0: Seq<PacketView>|
            connections::pumped(c.drop_last(), kept0, packets0)
                && #[trigger] connections::conn_pumped(c.last(), kept0, packets0, kept, packets);
        let before = c.drop_last();
        let last = c.len() - 1;
        law_polling_keeps_credit(before, kept0, packets0);
        assert forall|j: int| 0 <= j < packets.len() implies exists|i: int|
            0 <= i < c.len() && speaks_for(#[trigger] packets[j], #[trigger] c[i]) by {
            if j < packets0.len() {
                let i = choose|i: int|
                    0 <= i < before.len() && speaks_for(packets0[j], #[trigger] before[i]);
                assert(c[i] == before[i]);
            } else {
                assert(speaks_for(packets[j], c[last]));
            }
        }
        assert forall|j: int| 0 <= j < kept.len() implies exists|i: int|
            0 <= i < c.len() && same_but_stream(#[trigger] c[i], #[trigger] kept[j]) by {
            if j < kept0.len() {
                let i = choose|i: int|
                    0 <= i < before.len() && same_but_stream(#[trigger] before[i], kept0[j]);
                assert(c[i] == before[i]);
            } else {
                assert(same_but_stream(c[last], kept[j]));
            }
        }
        assert forall|i: int|
            0 <= i < c.len() && !(#[trigger] c[i]).established implies kept.contains(c[i]) by {
            if i < last {
                assert(before[i] == c[i]);
                let j = choose|j: int| 0 <= j < kept0.len() && kept0[j] == c[i];
                assert(kept[j] == c[i]);
            } else {
                assert(kept[kept.len() - 1] == c[i]);
            }
        }
    }
}

/// A device that takes back what another one saved holds its registers and queues, saves the
/// same positions, and has no connections.
pub proof fn law_vsock_save_restore<S>(a: VsockView<S>, b: VsockView<S>)
    ensures
        ({
            let r = b.restored(a.regs, a.queues, a.saved_positions());
            &&& r.regs == a.regs
            &&& r.queues == a.queues
            &&& r.saved_positions() == a.saved_positions()
            &&& r.bridge.connections.len() == 0
            &&& r.bridge.pending.len() == 0
        }),
{
    let r = b.restored(a.regs, a.queues, a.saved_positions());
    assert(r.saved_positions() =~= a.saved_positions());
}

/// A reset ends a failure, and leaves no connection and nothing waiting.
pub proof fn law_vsock_reset_recovers<S>(s: VsockView<S>)
    ensures
        !s.written(reg::STATUS, 0).failed(),
        s.written(reg::STATUS, 0).bridge.connections.len() == 0,
        s.written(reg::STATUS, 0).bridge.pending.len() == 0,
        s.written(reg::STATUS, 0).register(reg::STATUS, 4) == 0,
{
    assert(0u32 & (64u32 | 128u32) == 0) by (bit_vector);
}

/// Data that the host took is counted: the credit that the guest is told about afterwards has
/// advanced by the length of the data.
pub proof fn law_rw_advances_credit<S: HostVsockStream>(
    s: BridgeView<S>,
    h: VsockPacketHeader,
    data: Seq<u8>,
    t: BridgeView<S>,
)
    requires
        s.wf(),
        connections::rw_handled(s, h, data, t),
        connections::has_key(t.connections, connections::guest_key(h)),
    ensures
        t.forwarded(connections::guest_key(h)) == connections::advanced(
            s.forwarded(connections::guest_key(h)),
            data.len() as int,
        ),
{
    connections::lemma_rw_keeps_slot(s, h, data, t);
}

} // verus!
