//! What holds of frames that are sent and delivered.
use crate::bytes;
use crate::guest_memory;
use crate::virtio::buffers::{self, MemState};
use crate::virtio::net_transport::tap::SentFrame;
use crate::virtio::net_transport::{
    self, NetMmioView, RxWork, TxWork, MAX_FRAME_BYTES, VIRTIO_NET_HDR_LEN,
};
use crate::virtio::queue_state;
use crate::virtio::transport_regs;
use crate::virtio::vqueue::pass_laws;
use crate::virtio::vqueue::{self, Pass, QueueConfig};
use vstd::prelude::*;

verus! {

/// How many of the frames count as sent: those of which the host took any byte.
pub open spec fn taken(frames: Seq<SentFrame>) -> nat
    decreases frames.len(),
{
    if frames.len() == 0 {
        0
    } else {
        taken(frames.drop_last()) + if frames.last().rc > 0 {
            1nat
        } else {
            0nat
        }
    }
}

/// `now` has what `then` has, and behind it only frames of acceptable length.
pub open spec fn frames_added(then: Seq<SentFrame>, now: Seq<SentFrame>) -> bool {
    &&& then.len() <= now.len()
    &&& now.take(then.len() as int) == then
    &&& forall|i: int|
        then.len() <= i < now.len() ==> 0 < (#[trigger] now[i]).frame.len() <= MAX_FRAME_BYTES
            - VIRTIO_NET_HDR_LEN
}

/// From one state of the work to the next the tap was handed frames of acceptable length, and
/// those that the host took were counted.
spec fn tx_went_on(a: TxWork, b: TxWork) -> bool {
    &&& a.tap is Some == b.tap is Some
    &&& a.tap is Some ==> frames_added(a.tap->0, b.tap->0) && b.sent + taken(a.tap->0) == a.sent
        + taken(b.tap->0)
    &&& a.tap is None ==> b.sent == a.sent
}

proof fn lemma_tx_went_on(a: TxWork, b: TxWork, c: TxWork)
    requires
        tx_went_on(a, b),
        tx_went_on(b, c),
    ensures
        tx_went_on(a, c),
{
    if a.tap is Some {
        let (x, y, z) = (a.tap->0, b.tap->0, c.tap->0);
        assert(z.take(x.len() as int) =~= x) by {
            assert forall|i: int| 0 <= i < x.len() implies z[i] == x[i] by {
                assert(z.take(y.len() as int)[i] == y[i]);
                assert(y.take(x.len() as int)[i] == x[i]);
            }
        }
        assert forall|i: int| x.len() <= i < z.len() implies 0 < (#[trigger] z[i]).frame.len()
            <= MAX_FRAME_BYTES - VIRTIO_NET_HDR_LEN by {
            if i < y.len() {
                assert(z.take(y.len() as int)[i] == y[i]);
            }
        }
    }
}

proof fn lemma_tx_step(w: TxWork, data: Seq<u8>, w2: TxWork, answer: Option<u32>)
    requires
        net_transport::tx_served(w, data, w2, answer),
    ensures
        tx_went_on(w, w2),
{
    if w.tap is Some {
        let then = w.tap->0;
        let now = w2.tap->0;
        assert(then.take(then.len() as int) =~= then);
        if now != then {
            assert(now.drop_last() =~= then);
            assert(now.take(then.len() as int) =~= then);
        }
    }
}

proof fn lemma_tx_pass(config: QueueConfig, target: u16, s: Pass<TxWork>, t: Pass<TxWork>)
    requires
        vqueue::device_pass(net_transport::tx_step(), config, target, s, t),
    ensures
        tx_went_on(s.work, t.work),
    decreases vqueue::idx_distance(s.pass.avail, target),
{
    let k = s.skipped(config, target);
    vqueue::lemma_skip_rejected(s.pass.mem.ram, config, s.pass.avail, target);
    if s.work.tap is Some {
        let frames = s.work.tap->0;
        assert(frames.take(frames.len() as int) =~= frames);
    }
    if k.pass.avail != target {
        let head = vqueue::avail_head(k.pass.mem.ram, config, k.pass.avail);
        let chain = vqueue::chain_from(k.pass.mem.ram, config, head)->0;
        let step = net_transport::tx_step();
        let (w, m, answer) = choose|w: TxWork, m: MemState, answer: Option<u32>|
            #[trigger] step(k.work, k.pass.mem, chain, w, m, answer) && match answer {
                None => t == k.worked(w, m),
                Some(len) => vqueue::device_pass(
                    step,
                    config,
                    target,
                    k.worked(w, m).completed(config, head, len),
                    t,
                ),
            };
        assert(step(k.work, k.pass.mem, chain, w, m, answer));
        lemma_tx_step(
            k.work,
            buffers::gather(k.pass.mem.ram, chain.readable),
            w,
            answer,
        );
        match answer {
            None => {},
            Some(len) => {
                let next = k.worked(w, m).completed(config, head, len);
                lemma_tx_pass(config, target, next, t);
                lemma_tx_went_on(s.work, w, t.work);
            },
        }
    }
}

/// Working through the TX queue hands the tap only frames without their header and of acceptable
/// length, behind those it was handed before, and returns how many the host took. Without a tap
/// nothing is sent.
pub proof fn law_tx_hands_over_frames(s: NetMmioView, t: NetMmioView, sent: nat)
    requires
        net_transport::tx_drained(s, t, sent),
    ensures
        t.tap is Some == s.tap is Some,
        s.tap is None ==> sent == 0,
        s.tap is Some ==> frames_added(s.tap->0, t.tap->0) && taken(t.tap->0) == taken(s.tap->0)
            + sent,
        t.rx_packets == s.rx_packets,
        t.rx_bytes == s.rx_bytes,
{
    if s.tap is Some {
        let frames = s.tap->0;
        assert(frames.take(frames.len() as int) =~= frames);
    }
    if s.can_process(1) && vqueue::queue_usable(s.ram->0, s.queues[1].config()) {
        let config = s.queues[1].config();
        let target = vqueue::avail_ring_idx(s.ram->0, config);
        let w = choose|w: Pass<TxWork>|
            #[trigger] vqueue::device_pass(
                net_transport::tx_step(),
                config,
                target,
                s.tx_start(),
                w,
            ) && t == s.tx_finished(w) && sent == w.work.sent;
        lemma_tx_pass(config, target, s.tx_start(), w);
    }
}

/// From one state of the work to the next the packet was delivered at most once, and a delivery
/// was counted.
spec fn rx_went_on(packet: Seq<u8>, a: RxWork, b: RxWork) -> bool {
    if a.delivered || !b.delivered {
        b.delivered == a.delivered && b.packets == a.packets && b.bytes == a.bytes
    } else {
        &&& b.packets == transport_regs::counted(a.packets)
        &&& b.bytes == transport_regs::counted_by(a.bytes, packet.len() as u64)
    }
}

proof fn lemma_rx_pass(
    packet: Seq<u8>,
    config: QueueConfig,
    target: u16,
    s: Pass<RxWork>,
    t: Pass<RxWork>,
)
    requires
        vqueue::device_pass(net_transport::rx_step(packet), config, target, s, t),
    ensures
        rx_went_on(packet, s.work, t.work),
        s.pass.done <= t.pass.done,
        t.work.delivered && !s.work.delivered ==> s.pass.done < t.pass.done,
        t.pass.mem.ram.dom() == s.pass.mem.ram.dom(),
    decreases vqueue::idx_distance(s.pass.avail, target),
{
    let k = s.skipped(config, target);
    vqueue::lemma_skip_rejected(s.pass.mem.ram, config, s.pass.avail, target);
    if k.pass.avail != target {
        let head = vqueue::avail_head(k.pass.mem.ram, config, k.pass.avail);
        let chain = vqueue::chain_from(k.pass.mem.ram, config, head)->0;
        let step = net_transport::rx_step(packet);
        let (w, m, answer) = choose|w: RxWork, m: MemState, answer: Option<u32>|
            #[trigger] step(k.work, k.pass.mem, chain, w, m, answer) && match answer {
                None => t == k.worked(w, m),
                Some(len) => vqueue::device_pass(
                    step,
                    config,
                    target,
                    k.worked(w, m).completed(config, head, len),
                    t,
                ),
            };
        assert(step(k.work, k.pass.mem, chain, w, m, answer));
        assert(net_transport::rx_served(packet, k.work, k.pass.mem, chain.writable, w, m, answer));
        buffers::lemma_scatter_dom(
            k.pass.mem,
            chain.writable,
            net_transport::rx_header() + packet,
        );
        match answer {
            None => {},
            Some(len) => {
                let next = k.worked(w, m).completed(config, head, len);
                guest_memory::lemma_ram_write_dom(
                    m.ram,
                    vqueue::used_slot(config, k.pass.used),
                    bytes::le32_bytes(head as int) + bytes::le32_bytes(len as int),
                );
                lemma_rx_pass(packet, config, target, next, t);
            },
        }
    }
}

/// A packet goes to the guest at most once per attempt. It is counted, and the guest interrupted,
/// exactly when it did. The answer says whether a chain was consumed, which is whether the index
/// of the used ring that the guest sees has moved; a packet that was delivered consumed its chain.
/// The TX side stays as it is.
pub proof fn law_rx_delivers_once(
    packet: Seq<u8>,
    s: NetMmioView,
    t: NetMmioView,
    consumed: bool,
) -> (delivered: bool)
    requires
        net_transport::rx_injected(packet, s, t, consumed),
    ensures
        delivered ==> consumed,
        t.rx_packets == (if delivered {
            transport_regs::counted(s.rx_packets)
        } else {
            s.rx_packets
        }),
        t.rx_bytes == (if delivered {
            transport_regs::counted_by(s.rx_bytes, packet.len() as u64)
        } else {
            s.rx_bytes
        }),
        t.pending_irqs == (if delivered {
            transport_regs::counted(s.pending_irqs)
        } else {
            s.pending_irqs
        }),
        t.regs == (if delivered {
            s.regs.interrupted(transport_regs::VIRTIO_MMIO_INT_VRING)
        } else {
            s.regs
        }),
        s.can_process(0) && vqueue::queue_usable(s.ram->0, s.queues[0].config()) && packet.len()
            + VIRTIO_NET_HDR_LEN <= MAX_FRAME_BYTES ==> consumed == (vqueue::used_ring_idx(
            t.ram->0,
            s.queues[0].config(),
        ) != queue_state::configured(s.rx_processor, s.queues[0]).last_used_idx),
        t.tap == s.tap,
        t.tx_packets == s.tx_packets,
        t.tx_processor == s.tx_processor,
{
    if packet.len() + 12 <= MAX_FRAME_BYTES && s.can_process(0) && vqueue::queue_usable(
        s.ram->0,
        s.queues[0].config(),
    ) {
        let config = s.queues[0].config();
        let target = vqueue::avail_ring_idx(s.ram->0, config);
        let w = choose|w: Pass<RxWork>|
            #[trigger] vqueue::device_pass(
                net_transport::rx_step(packet),
                config,
                target,
                s.rx_start(),
                w,
            ) && t == s.rx_finished(w) && consumed == (w.pass.done > 0);
        lemma_rx_pass(packet, config, target, s.rx_start(), w);
        pass_laws::law_device_pass_advances(
            net_transport::rx_step(packet),
            config,
            target,
            s.rx_start(),
            w,
        );
        vqueue::lemma_usable_dom(s.ram->0, w.pass.mem.ram, config);
        vqueue::lemma_published(w.pass.mem, config, w.pass.used);
        w.work.delivered
    } else {
        false
    }
}

} // verus!
