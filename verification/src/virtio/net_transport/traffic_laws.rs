//! Which bytes a frame has on its way between guest memory and the host.
use crate::guest_memory;
use crate::rate_limit::{self, RateLimiter};
use crate::virtio::buffers::laws as places;
use crate::virtio::buffers::{self, MemState};
use crate::virtio::net_transport::tap::Tap;
use crate::virtio::net_transport::{self, NetMmioView, RxWork, TxWork, VirtioNetMmio};
use crate::virtio::transport_regs;
use crate::virtio::vqueue::trace_laws::{self, Turn};
use crate::virtio::vqueue::{self, DescriptorChain, Pass};
use vm_memory::GuestMemoryMmap;
use vstd::prelude::*;

verus! {

/// `frame` is what stands in the buffers behind their first 12 bytes: all of it, in order.
pub open spec fn is_frame_in(ram: Map<int, u8>, bufs: Seq<(u64, u32)>, frame: Seq<u8>) -> bool {
    &&& frame.len() + 12 == places::start_of(bufs, bufs.len() as int)
    &&& forall|k: int, j: int|
        #[trigger] places::is_place(bufs, k, j) && places::start_of(bufs, k) + j >= 12
            ==> frame[places::start_of(bufs, k) + j - 12] == ram[bufs[k].0 + j]
}

/// `n` after `k` more, in 64 bits that wrap around.
pub open spec fn wrapped(n: u64, k: int) -> int {
    (n + k) % 0x1_0000_0000_0000_0000
}

/// What a chain of the TX queue comes to. Without a frame of up to 1588 bytes behind 12 bytes of
/// header it goes back, and nothing else happens. With one, the length of the frame is charged; a
/// refused chain waits, and changes nothing but the limiter. An allowed one goes back, and the tap,
/// if there is one, was handed the whole frame: it is the last on its record, behind all that were
/// there, and it counts as sent where the host took any byte.
pub open spec fn sends(
    w: TxWork,
    ram: Map<int, u8>,
    bufs: Seq<(u64, u32)>,
    w2: TxWork,
    answer: Option<u32>,
) -> bool {
    let len = places::start_of(bufs, bufs.len() as int);
    if len <= 12 || len > 1600 {
        w2 == w && answer == Some(0u32)
    } else {
        &&& rate_limit::limiter_charges(w.limiter, (len - 12) as u64, w2.limiter, answer is Some)
        &&& w2.tap is Some == w.tap is Some
        &&& answer is None || w.tap is None ==> w2 == TxWork { limiter: w2.limiter, ..w }
        &&& answer is Some ==> answer == Some(0u32)
        &&& answer is Some && w.tap is Some ==> {
            let (then, now) = (w.tap->0, w2.tap->0);
            let rc = now.last().rc;
            &&& now.len() == then.len() + 1
            &&& forall|i: int| 0 <= i < then.len() ==> #[trigger] now[i] == then[i]
            &&& is_frame_in(ram, bufs, now.last().frame)
            &&& w2.sent == w.sent + (if rc > 0 {
                1int
            } else {
                0
            })
            &&& w2.packets == wrapped(w.packets, if rc > 0 {
                1
            } else {
                0
            })
            &&& w2.bytes == wrapped(w.bytes, if rc > 0 {
                rc as int
            } else {
                0
            })
        }
    }
}

/// A chain that is sent hands the tap all its readable bytes but the first 12.
pub proof fn law_tx_frame_is_whole(
    w: TxWork,
    ram: Map<int, u8>,
    bufs: Seq<(u64, u32)>,
    w2: TxWork,
    answer: Option<u32>,
)
    requires
        net_transport::tx_served(w, buffers::gather(ram, bufs), w2, answer),
    ensures
        sends(w, ram, bufs, w2, answer),
{
    let data = buffers::gather(ram, bufs);
    places::law_gather_reads_every_byte(ram, bufs);
    if 12 < data.len() <= 1600 {
        let (l, ok) = choose|l: Option<rate_limit::Buckets>, ok: bool|
            #[trigger] rate_limit::limiter_charges(w.limiter, (data.len() - 12) as u64, l, ok)
                && if ok {
                &&& answer == Some(0u32)
                &&& net_transport::tap_takes(
                    data.subrange(12, data.len() as int),
                    TxWork { limiter: l, ..w },
                    w2,
                )
            } else {
                answer is None && w2 == TxWork { limiter: l, ..w }
            };
        if ok && w.tap is Some {
            let frame = w2.tap->0.last().frame;
            assert(frame == data.subrange(12, data.len() as int));
            assert forall|k: int, j: int|
                #[trigger] places::is_place(bufs, k, j) && places::start_of(bufs, k) + j
                    >= 12 implies frame[places::start_of(bufs, k) + j - 12] == ram[bufs[k].0
                + j] by {
                places::lemma_start_grows(bufs, k + 1, bufs.len() as int);
            }
        }
    }
}

/// The device has TX work as this.
pub open spec fn has_tx_work(d: NetMmioView, w: TxWork) -> bool {
    &&& w.limiter == d.limiter
    &&& w.tap == d.tap
    &&& w.packets == d.tx_packets
    &&& w.bytes == d.tx_bytes
}

/// The interrupt of the queues was raised, or nothing was.
pub open spec fn is_interrupted(s: NetMmioView, t: NetMmioView, raised: bool) -> bool {
    if raised {
        &&& t.regs.interrupt_status == s.regs.interrupt_status | 1
        &&& t.regs == transport_regs::TransportRegs {
            interrupt_status: t.regs.interrupt_status,
            ..s.regs
        }
        &&& t.pending_irqs == wrapped(s.pending_irqs, 1)
    } else {
        t.regs == s.regs && t.pending_irqs == s.pending_irqs
    }
}

/// The TX queue is worked through chain by chain, from where the device stood to the index that
/// the guest has set. Each chain is sent as [`sends`] says, from the device as the one before it
/// left it; so the frames on the tap's record are those of the chains, each whole, in the order of
/// the avail ring. Neither a byte of a buffer nor anything else of the device changes.
pub proof fn law_tx_sends_every_chain(s: NetMmioView, t: NetMmioView, sent: nat) -> (r: (
    Seq<Pass<TxWork>>,
    Seq<Turn<TxWork>>,
    Pass<TxWork>,
))
    requires
        net_transport::tx_drained(s, t, sent),
        s.can_process(1),
        vqueue::queue_usable(s.ram->0, s.queues[1].config()),
    ensures
        ({
            let config = s.queues[1].config();
            let target = trace_laws::word16(s.ram->0, config.avail_ring_addr + 2) as u16;
            let (states, turns, end) = r;
            &&& trace_laws::starts_at(s.tx_processor, s.ram->0, s.dirty, states[0].pass)
            &&& has_tx_work(s, states[0].work)
            &&& states[0].work.sent == 0
            &&& trace_laws::in_turn(net_transport::tx_step(), config, target, states, turns)
            &&& forall|i: int|
                0 <= i < turns.len() ==> {
                    let turn = #[trigger] turns[i];
                    &&& turn.mem == turn.at.pass.mem
                    &&& sends(
                        turn.at.work,
                        turn.mem.ram,
                        turn.chain.readable,
                        turn.work,
                        turn.answer,
                    )
                }
            &&& trace_laws::ends(config, target, states, turns, end)
            &&& trace_laws::is_over(config, end.pass, t.tx_processor, t.ram->0, t.dirty)
            &&& has_tx_work(t, end.work)
            &&& sent == end.work.sent
            &&& is_interrupted(s, t, end.pass.done > 0)
            &&& t == NetMmioView {
                limiter: t.limiter,
                tap: t.tap,
                tx_packets: t.tx_packets,
                tx_bytes: t.tx_bytes,
                tx_processor: t.tx_processor,
                ram: t.ram,
                dirty: t.dirty,
                regs: t.regs,
                pending_irqs: t.pending_irqs,
                ..s
            }
            &&& t.ram is Some
            &&& t.dirty is Some == s.dirty is Some
        }),
{
    let config = s.queues[1].config();
    trace_laws::law_rings_stand_in_memory(s.ram->0, config, 0);
    let target = vqueue::avail_ring_idx(s.ram->0, config);
    let w = choose|w: Pass<TxWork>|
        #[trigger] vqueue::device_pass(
            net_transport::tx_step(),
            config,
            target,
            s.tx_start(),
            w,
        ) && t == s.tx_finished(w) && sent == w.work.sent;
    let (states, turns) = trace_laws::law_pass_goes_in_turn(
        net_transport::tx_step(),
        config,
        target,
        s.tx_start(),
        w,
    );
    assert forall|i: int| 0 <= i < turns.len() implies {
        let turn = #[trigger] turns[i];
        &&& turn.mem == turn.at.pass.mem
        &&& sends(turn.at.work, turn.mem.ram, turn.chain.readable, turn.work, turn.answer)
    } by {
        let turn = turns[i];
        let step = net_transport::tx_step();
        assert(step(
            turn.at.work,
            turn.at.pass.mem,
            turn.chain,
            turn.work,
            turn.mem,
            turn.answer,
        ));
        law_tx_frame_is_whole(
            turn.at.work,
            turn.mem.ram,
            turn.chain.readable,
            turn.work,
            turn.answer,
        );
    }
    trace_laws::lemma_is_over(
        config,
        w.pass,
        vqueue::used_idx_stored(w.pass.mem, config, w.pass.used),
    );
    (states, turns, w)
}

/// Byte `i` of what a guest is handed for a packet: 12 bytes of header, all zero but the eleventh,
/// which counts one buffer, then the packet.
pub open spec fn handed_byte(packet: Seq<u8>, i: int) -> u8 {
    if i == 10 {
        1
    } else if i < 12 {
        0
    } else {
        packet[i - 12]
    }
}

/// What a chain of the RX queue comes to, for a packet that was not delivered yet. One without
/// room for packet and header goes back empty. With room, the length of the packet is charged; a
/// refused chain waits, and changes nothing but the limiter. An allowed one holds the header and
/// the whole packet, from the first byte of its first buffer on, and goes back with their length.
pub open spec fn delivers(
    packet: Seq<u8>,
    w: RxWork,
    m: MemState,
    bufs: Seq<(u64, u32)>,
    w2: RxWork,
    m2: MemState,
    answer: Option<u32>,
) -> bool {
    let room = places::start_of(bufs, bufs.len() as int);
    if w.delivered {
        w2 == w && m2 == m && answer is None
    } else if room < packet.len() + 12 {
        w2 == w && m2 == m && answer == Some(0u32)
    } else {
        &&& rate_limit::limiter_charges(w.limiter, packet.len() as u64, w2.limiter, answer is Some)
        &&& answer is None ==> m2 == m && w2 == RxWork { limiter: w2.limiter, ..w }
        &&& answer is Some ==> {
            &&& answer->0 == packet.len() + 12
            &&& w2.delivered
            &&& w2.packets == wrapped(w.packets, 1)
            &&& w2.bytes == wrapped(w.bytes, packet.len() as int)
            &&& places::recorded(m, m2)
            &&& places::apart(bufs) ==> forall|k: int, j: int| #[trigger]
                places::is_place(bufs, k, j) ==> m2.ram[bufs[k].0 + j] == (if places::start_of(
                    bufs,
                    k,
                ) + j < packet.len() + 12 {
                    handed_byte(packet, places::start_of(bufs, k) + j)
                } else {
                    m.ram[bufs[k].0 + j]
                })
            &&& places::apart(bufs) ==> forall|a: int|
                m.ram.dom().contains(a) && !places::in_any(bufs, a) ==> #[trigger] m2.ram[a]
                    == m.ram[a]
        }
    }
}

/// A packet that is delivered stands whole in the buffers of one chain, behind its header.
pub proof fn law_rx_packet_is_whole(
    packet: Seq<u8>,
    w: RxWork,
    m: MemState,
    bufs: Seq<(u64, u32)>,
    w2: RxWork,
    m2: MemState,
    answer: Option<u32>,
)
    requires
        packet.len() <= 1588,
        buffers::all_mapped(m.ram, bufs),
        net_transport::rx_served(packet, w, m, bufs, w2, m2, answer),
    ensures
        delivers(packet, w, m, bufs, w2, m2, answer),
{
    let data = net_transport::rx_header() + packet;
    places::law_gather_reads_every_byte(m.ram, bufs);
    if !w.delivered && buffers::total_len(bufs) >= packet.len() + 12 {
        let (l, ok) = choose|l: Option<rate_limit::Buckets>, ok: bool|
            #[trigger] rate_limit::limiter_charges(w.limiter, packet.len() as u64, l, ok) && if ok {
                &&& answer == Some((packet.len() + 12) as u32)
                &&& m2 == buffers::scatter(m, bufs, data)
                &&& w2 == RxWork {
                    limiter: l,
                    packets: transport_regs::counted(w.packets),
                    bytes: transport_regs::counted_by(w.bytes, packet.len() as u64),
                    delivered: true,
                }
            } else {
                answer is None && m2 == m && w2 == RxWork { limiter: l, ..w }
            };
        if ok {
            places::law_scatter_is_recorded(m, bufs, data);
            assert forall|i: int| 0 <= i < packet.len() + 12 implies data[i] == handed_byte(
                packet,
                i,
            ) by {}
            if places::apart(bufs) {
                places::law_scatter_fills_every_buffer(m, bufs, data);
                assert forall|k: int, j: int| #[trigger]
                    places::is_place(bufs, k, j) implies m2.ram[bufs[k].0 + j] == (
                if places::start_of(bufs, k) + j < packet.len() + 12 {
                    handed_byte(packet, places::start_of(bufs, k) + j)
                } else {
                    m.ram[bufs[k].0 + j]
                }) by {
                    places::lemma_start_grows(bufs, k, k);
                }
            }
        }
    }
}

/// The RX queue is offered a packet chain by chain, from where the device stood to the index that
/// the guest has set. Each chain is taken up as [`delivers`] says, until one holds the packet. The
/// guest is interrupted where one does; the answer says whether any chain went back.
pub proof fn law_rx_offers_every_chain(
    packet: Seq<u8>,
    s: NetMmioView,
    t: NetMmioView,
    consumed: bool,
) -> (r: (Seq<Pass<RxWork>>, Seq<Turn<RxWork>>, Pass<RxWork>))
    requires
        net_transport::rx_injected(packet, s, t, consumed),
        packet.len() + 12 <= 1600,
        s.can_process(0),
        vqueue::queue_usable(s.ram->0, s.queues[0].config()),
    ensures
        ({
            let config = s.queues[0].config();
            let target = trace_laws::word16(s.ram->0, config.avail_ring_addr + 2) as u16;
            let (states, turns, end) = r;
            &&& trace_laws::starts_at(s.rx_processor, s.ram->0, s.dirty, states[0].pass)
            &&& states[0].work == RxWork {
                limiter: s.limiter,
                packets: s.rx_packets,
                bytes: s.rx_bytes,
                delivered: false,
            }
            &&& trace_laws::in_turn(net_transport::rx_step(packet), config, target, states, turns)
            &&& forall|i: int|
                0 <= i < turns.len() ==> {
                    let turn = #[trigger] turns[i];
                    delivers(
                        packet,
                        turn.at.work,
                        turn.at.pass.mem,
                        turn.chain.writable,
                        turn.work,
                        turn.mem,
                        turn.answer,
                    )
                }
            &&& trace_laws::ends(config, target, states, turns, end)
            &&& trace_laws::is_over(config, end.pass, t.rx_processor, t.ram->0, t.dirty)
            &&& t.limiter == end.work.limiter
            &&& t.rx_packets == end.work.packets
            &&& t.rx_bytes == end.work.bytes
            &&& consumed == (end.pass.done > 0)
            &&& is_interrupted(s, t, end.work.delivered)
            &&& t == NetMmioView {
                limiter: t.limiter,
                rx_packets: t.rx_packets,
                rx_bytes: t.rx_bytes,
                rx_processor: t.rx_processor,
                ram: t.ram,
                dirty: t.dirty,
                regs: t.regs,
                pending_irqs: t.pending_irqs,
                ..s
            }
            &&& t.ram is Some
            &&& t.dirty is Some == s.dirty is Some
        }),
{
    let config = s.queues[0].config();
    trace_laws::law_rings_stand_in_memory(s.ram->0, config, 0);
    let target = vqueue::avail_ring_idx(s.ram->0, config);
    let w = choose|w: Pass<RxWork>|
        #[trigger] vqueue::device_pass(
            net_transport::rx_step(packet),
            config,
            target,
            s.rx_start(),
            w,
        ) && t == s.rx_finished(w) && consumed == (w.pass.done > 0);
    let step = net_transport::rx_step(packet);
    let (states, turns) = trace_laws::law_pass_goes_in_turn(step, config, target, s.rx_start(), w);
    assert forall|i: int| 0 <= i < turns.len() implies {
        let turn = #[trigger] turns[i];
        delivers(
            packet,
            turn.at.work,
            turn.at.pass.mem,
            turn.chain.writable,
            turn.work,
            turn.mem,
            turn.answer,
        )
    } by {
        let turn = turns[i];
        assert(step(
            turn.at.work,
            turn.at.pass.mem,
            turn.chain,
            turn.work,
            turn.mem,
            turn.answer,
        ));
        vqueue::lemma_chain_buffers(turn.at.pass.mem.ram, config, turn.head);
        law_rx_packet_is_whole(
            packet,
            turn.at.work,
            turn.at.pass.mem,
            turn.chain.writable,
            turn.work,
            turn.mem,
            turn.answer,
        );
    }
    trace_laws::lemma_is_over(
        config,
        w.pass,
        vqueue::used_idx_stored(w.pass.mem, config, w.pass.used),
    );
    (states, turns, w)
}

/// Where a queue cannot be worked on, or a packet is longer than 1588 bytes, nothing is sent or
/// delivered, and nothing changes but the processor that was set up for the queue.
pub proof fn law_net_does_nothing_without_a_queue(
    packet: Seq<u8>,
    s: NetMmioView,
    sent_to: NetMmioView,
    sent: nat,
    given_to: NetMmioView,
    consumed: bool,
)
    requires
        net_transport::tx_drained(s, sent_to, sent),
        net_transport::rx_injected(packet, s, given_to, consumed),
    ensures
        !s.can_process(1) || !vqueue::queue_usable(s.ram->0, s.queues[1].config()) ==> sent == 0
            && sent_to == (NetMmioView { tx_processor: sent_to.tx_processor, ..s }),
        packet.len() > 1588 || !s.can_process(0) || !vqueue::queue_usable(
            s.ram->0,
            s.queues[0].config(),
        ) ==> !consumed && given_to == (NetMmioView { rx_processor: given_to.rx_processor, ..s }),
{
}

/// A call of `send_chain` sends the chain that it was called with as [`sends`] says: the frame that
/// the tap is handed is all of the chain's readable bytes but the first 12.
pub(super) proof fn law_send_chain_sends_the_whole_frame<TAP: Fn(&[u8]) -> i64>(
    mem: &GuestMemoryMmap,
    chain: &DescriptorChain,
    answer: Option<u32>,
)
    ensures
        forall|
            tap: &mut Option<Tap<TAP>>,
            limiter: &mut Option<RateLimiter>,
            packets: &mut u64,
            bytes: &mut u64,
            sent: &mut usize,
        |
            #[trigger] call_ensures(
                VirtioNetMmio::<TAP>::send_chain,
                (mem, tap, limiter, packets, bytes, sent, chain),
                answer,
            ) ==> sends(
                (TxWork {
                    limiter: rate_limit::limiter_view(*limiter),
                    tap: net_transport::tap_log(*tap),
                    packets: *packets,
                    bytes: *bytes,
                    sent: *sent as nat,
                }),
                guest_memory::guest_bytes(*mem),
                chain@.readable,
                (TxWork {
                    limiter: rate_limit::limiter_view(*final(limiter)),
                    tap: net_transport::tap_log(*final(tap)),
                    packets: *final(packets),
                    bytes: *final(bytes),
                    sent: *final(sent) as nat,
                }),
                answer,
            ),
{
    assert forall|
        tap: &mut Option<Tap<TAP>>,
        limiter: &mut Option<RateLimiter>,
        packets: &mut u64,
        bytes: &mut u64,
        sent: &mut usize,
    |
        #[trigger] call_ensures(
            VirtioNetMmio::<TAP>::send_chain,
            (mem, tap, limiter, packets, bytes, sent, chain),
            answer,
        ) implies sends(
        (TxWork {
            limiter: rate_limit::limiter_view(*limiter),
            tap: net_transport::tap_log(*tap),
            packets: *packets,
            bytes: *bytes,
            sent: *sent as nat,
        }),
        guest_memory::guest_bytes(*mem),
        chain@.readable,
        (TxWork {
            limiter: rate_limit::limiter_view(*final(limiter)),
            tap: net_transport::tap_log(*final(tap)),
            packets: *final(packets),
            bytes: *final(bytes),
            sent: *final(sent) as nat,
        }),
        answer,
    ) by {
        law_tx_frame_is_whole(
            TxWork {
                limiter: rate_limit::limiter_view(*limiter),
                tap: net_transport::tap_log(*tap),
                packets: *packets,
                bytes: *bytes,
                sent: *sent as nat,
            },
            guest_memory::guest_bytes(*mem),
            chain@.readable,
            TxWork {
                limiter: rate_limit::limiter_view(*final(limiter)),
                tap: net_transport::tap_log(*final(tap)),
                packets: *final(packets),
                bytes: *final(bytes),
                sent: *final(sent) as nat,
            },
            answer,
        );
    }
}

/// Calls of the public functions are the passes that the laws above speak of.
pub proof fn law_net_calls_are_passes<TAP: Fn(&[u8]) -> i64>(
    packet: &[u8],
    sent: usize,
    consumed: bool,
)
    ensures
        forall|d: &mut VirtioNetMmio<TAP>|
            #[trigger] call_ensures(VirtioNetMmio::<TAP>::process_tx_queue, (d,), sent)
                ==> net_transport::tx_drained((*d)@, (*final(d))@, sent as nat),
        forall|d: &mut VirtioNetMmio<TAP>|
            #[trigger] call_ensures(
                VirtioNetMmio::<TAP>::inject_rx_packet,
                (d, packet),
                consumed,
            ) ==> net_transport::rx_injected(packet@, (*d)@, (*final(d))@, consumed)
                && (*final(d)).tap == (*d).tap,
{
}

} // verus!
