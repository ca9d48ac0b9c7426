//! Which bytes a packet has in guest memory, and how the queues are worked through.
use crate::bytes;
use crate::virtio::buffers::laws as places;
use crate::virtio::buffers::{self, MemState};
use crate::virtio::transport_regs::TransportRegs;
use crate::virtio::vqueue::trace_laws::{self, Turn};
use crate::virtio::vqueue::{self, Pass, QueueConfig, VirtQueueProcessor};
use crate::virtio::vsock::connections::{self, BridgeView, HostVsockListener};
use crate::virtio::vsock::packet::{self, PacketView, VsockPacketHeader};
use crate::virtio::vsock::{self, RxWork, TxWork, VsockCounts, VsockView};
use vstd::prelude::*;

verus! {

/// The 16-bit integer at offset `i`, least significant byte first.
pub open spec fn int16(b: Seq<u8>, i: int) -> int {
    b[i] + 256 * b[i + 1]
}

/// The 32-bit integer at offset `i`, least significant byte first.
pub open spec fn int32(b: Seq<u8>, i: int) -> int {
    b[i] + 256 * b[i + 1] + 65536 * b[i + 2] + 16777216 * b[i + 3]
}

/// The 64-bit integer at offset `i`, least significant byte first.
pub open spec fn int64(b: Seq<u8>, i: int) -> int {
    int32(b, i) + 4294967296 * int32(b, i + 4)
}

/// The bytes begin with the header.
pub open spec fn begins_with(b: Seq<u8>, h: VsockPacketHeader) -> bool {
    &&& b.len() >= 44
    &&& int64(b, 0) == h.src_cid
    &&& int64(b, 8) == h.dst_cid
    &&& int32(b, 16) == h.src_port
    &&& int32(b, 20) == h.dst_port
    &&& int32(b, 24) == h.len
    &&& int16(b, 28) == h.type_
    &&& int16(b, 30) == h.op
    &&& int32(b, 32) == h.flags
    &&& int32(b, 36) == h.buf_alloc
    &&& int32(b, 40) == h.fwd_cnt
}

proof fn lemma_decoded(b: Seq<u8>)
    requires
        b.len() >= 44,
    ensures
        begins_with(b, VsockPacketHeader::decoded(b)),
{
    bytes::lemma_le64_stands(b, 0);
    bytes::lemma_le64_stands(b, 8);
    bytes::lemma_le32_stands(b, 16);
    bytes::lemma_le32_stands(b, 20);
    bytes::lemma_le32_stands(b, 24);
    bytes::lemma_le16_stands(b, 28);
    bytes::lemma_le16_stands(b, 30);
    bytes::lemma_le32_stands(b, 32);
    bytes::lemma_le32_stands(b, 36);
    bytes::lemma_le32_stands(b, 40);
}

/// The bytes are the packet: 44 bytes of header with the true length of the data, then the data.
pub open spec fn is_packet(b: Seq<u8>, p: PacketView) -> bool {
    &&& b.len() == 44 + p.data.len()
    &&& begins_with(b, VsockPacketHeader { len: p.data.len() as u32, ..p.header })
    &&& forall|i: int| 0 <= i < p.data.len() ==> b[44 + i] == #[trigger] p.data[i]
}

/// A packet is written as its header, field by field, and all its data.
pub proof fn law_packet_is_written_whole(p: PacketView)
    ensures
        is_packet(p.encoded(), p),
{
    let made = PacketView::made(p.header, p.data);
    packet::law_vsock_header_round_trip(made.header, p.data);
    let b = made.header.encoded() + p.data;
    assert(b == p.encoded());
    lemma_decoded(b);
    assert forall|i: int| 0 <= i < p.data.len() implies b[44 + i] == #[trigger] p.data[i] by {}
}

/// A packet is read from bytes where there is a header, the length in it is at most 65536, and
/// that much data follows. It is then that header and exactly that data.
pub proof fn law_packet_is_read_whole(b: Seq<u8>)
    ensures
        PacketView::decoded(b) is Some <==> b.len() >= 44 && int32(b, 24) <= 65536 && b.len() >= 44
            + int32(b, 24),
        PacketView::decoded(b) matches Some(p) ==> {
            &&& begins_with(b, p.header)
            &&& p.data.len() == int32(b, 24)
            &&& forall|i: int| 0 <= i < p.data.len() ==> #[trigger] p.data[i] == b[44 + i]
        },
{
    if b.len() >= 44 {
        lemma_decoded(b);
    }
}

/// A chain of the guest holds a packet where its readable bytes are at most 65580 and make one up.
pub proof fn law_tx_packet_is_read_whole(ram: Map<int, u8>, bufs: Seq<(u64, u32)>)
    requires
        buffers::all_mapped(ram, bufs),
    ensures
        ({
            let n = places::start_of(bufs, bufs.len() as int);
            let b = buffers::gather(ram, bufs);
            &&& b.len() == n
            &&& forall|k: int, j: int| #[trigger]
                places::is_place(bufs, k, j) ==> b[places::start_of(bufs, k) + j] == ram[bufs[k].0
                    + j]
            &&& packet::packet_in(ram, bufs) is Some <==> 44 <= n <= 65580 && int32(b, 24) <= 65536
                && n >= 44 + int32(b, 24)
            &&& packet::packet_in(ram, bufs) matches Some(p) ==> {
                &&& begins_with(b, p.header)
                &&& p.data.len() == int32(b, 24)
                &&& forall|i: int| 0 <= i < p.data.len() ==> #[trigger] p.data[i] == b[44 + i]
            }
        }),
{
    places::law_gather_reads_every_byte(ram, bufs);
    law_packet_is_read_whole(buffers::gather(ram, bufs));
}

/// `n` after `k` more, in 64 bits that wrap around.
pub open spec fn wrapped(n: u64, k: int) -> int {
    (n + k) % 0x1_0000_0000_0000_0000
}

/// The bytes `b` stand in the buffers, from the first byte of the first buffer on, and nothing
/// else changed. What changed is on the record.
pub open spec fn holds(m: MemState, bufs: Seq<(u64, u32)>, b: Seq<u8>, m2: MemState) -> bool {
    &&& places::recorded(m, m2)
    &&& places::apart(bufs) ==> {
        &&& forall|k: int, j: int| #[trigger]
            places::is_place(bufs, k, j) ==> m2.ram[bufs[k].0 + j] == (if places::start_of(bufs, k)
                + j < b.len() {
                b[places::start_of(bufs, k) + j]
            } else {
                m.ram[bufs[k].0 + j]
            })
        &&& forall|a: int|
            m.ram.dom().contains(a) && !places::in_any(bufs, a) ==> #[trigger] m2.ram[a]
                == m.ram[a]
    }
}

/// The first waiting packet waits no more and is counted.
pub open spec fn first_is_counted(w: RxWork, w2: RxWork) -> bool {
    let n = w.pending[0].data.len();
    &&& w2.pending.len() == w.pending.len() - 1
    &&& forall|i: int| 0 <= i < w2.pending.len() ==> #[trigger] w2.pending[i] == w.pending[i + 1]
    &&& w2.counts == VsockCounts {
        rx_packets: w2.counts.rx_packets,
        rx_bytes: w2.counts.rx_bytes,
        ..w.counts
    }
    &&& w2.counts.rx_packets == wrapped(w.counts.rx_packets, 1)
    &&& n <= u32::MAX ==> w2.counts.rx_bytes == wrapped(w.counts.rx_bytes, n as int)
}

/// What a chain of the RX queue comes to. With no packet waiting it waits itself. One that is too
/// short for the first waiting packet goes back empty, and the packet goes on waiting. One with
/// room holds the whole packet, from the first byte of its first buffer on, and goes back with its
/// length; the packet waits no more and is counted.
pub open spec fn gives(
    w: RxWork,
    m: MemState,
    bufs: Seq<(u64, u32)>,
    w2: RxWork,
    m2: MemState,
    answer: Option<u32>,
) -> bool {
    let room = places::start_of(bufs, bufs.len() as int);
    if w.pending.len() == 0 {
        answer is None && w2 == w && m2 == m
    } else if room < 44 + w.pending[0].data.len() {
        answer == Some(0u32) && w2 == w && m2 == m
    } else {
        &&& answer matches Some(n) && (n == 44 + w.pending[0].data.len() || 44
            + w.pending[0].data.len() > u32::MAX)
        &&& first_is_counted(w, w2)
        &&& exists|b: Seq<u8>| #[trigger] is_packet(b, w.pending[0]) && holds(m, bufs, b, m2)
    }
}

proof fn lemma_holds(m: MemState, bufs: Seq<(u64, u32)>, b: Seq<u8>)
    requires
        buffers::all_mapped(m.ram, bufs),
    ensures
        holds(m, bufs, b, buffers::scatter(m, bufs, b)),
{
    places::law_scatter_is_recorded(m, bufs, b);
    if places::apart(bufs) {
        places::law_scatter_fills_every_buffer(m, bufs, b);
    }
}

/// A chain was taken for the first waiting packet, whose bytes are `b`.
spec fn taken_for(
    w: RxWork,
    m: MemState,
    bufs: Seq<(u64, u32)>,
    w2: RxWork,
    m2: MemState,
    answer: Option<u32>,
    b: Seq<u8>,
) -> bool {
    if buffers::total_len(bufs) < b.len() {
        answer == Some(0u32) && w2 == w && m2 == m
    } else {
        &&& answer == Some(b.len() as u32)
        &&& m2 == buffers::scatter(m, bufs, b)
        &&& w2.pending == w.pending.skip(1)
        &&& w2.counts == w.counts.delivered(w.pending[0].data.len() as u64)
    }
}

proof fn lemma_taken_for(
    w: RxWork,
    m: MemState,
    bufs: Seq<(u64, u32)>,
    w2: RxWork,
    m2: MemState,
    answer: Option<u32>,
) -> (b: Seq<u8>)
    requires
        w.pending.len() > 0,
        vsock::rx_taken(w, m, bufs, w2, m2, answer),
    ensures
        taken_for(w, m, bufs, w2, m2, answer, b),
        is_packet(b, w.pending[0]),
{
    law_packet_is_written_whole(w.pending[0]);
    w.pending[0].encoded()
}

#[verifier::spinoff_prover]
proof fn lemma_gives(
    w: RxWork,
    m: MemState,
    bufs: Seq<(u64, u32)>,
    w2: RxWork,
    m2: MemState,
    answer: Option<u32>,
    b: Seq<u8>,
)
    requires
        w.pending.len() > 0,
        buffers::all_mapped(m.ram, bufs),
        taken_for(w, m, bufs, w2, m2, answer, b),
        is_packet(b, w.pending[0]),
    ensures
        gives(w, m, bufs, w2, m2, answer),
{
    places::law_gather_reads_every_byte(m.ram, bufs);
    lemma_holds(m, bufs, b);
}

/// A packet that is given to the guest stands whole in the buffers of one chain.
pub proof fn law_rx_packet_is_given_whole(
    w: RxWork,
    m: MemState,
    bufs: Seq<(u64, u32)>,
    w2: RxWork,
    m2: MemState,
    answer: Option<u32>,
)
    requires
        buffers::all_mapped(m.ram, bufs),
        vsock::rx_taken(w, m, bufs, w2, m2, answer),
    ensures
        gives(w, m, bufs, w2, m2, answer),
{
    if w.pending.len() > 0 {
        let b = lemma_taken_for(w, m, bufs, w2, m2, answer);
        lemma_gives(w, m, bufs, w2, m2, answer, b);
    }
}

/// What a chain of the TX queue comes to: it goes back with no bytes written, and memory stays.
/// The packet that it holds, if any, is counted with the length of its data, and handled.
pub open spec fn takes<L: HostVsockListener>(
    listener: Option<L>,
    w: TxWork<L::Stream>,
    m: MemState,
    bufs: Seq<(u64, u32)>,
    w2: TxWork<L::Stream>,
    m2: MemState,
    answer: Option<u32>,
) -> bool {
    &&& answer == Some(0u32)
    &&& m2 == m
    &&& match packet::packet_in(m.ram, bufs) {
        None => w2 == w,
        Some(p) => {
            &&& connections::tx_handled(listener, w.bridge, p, w2.bridge)
            &&& w2.counts == VsockCounts {
                tx_packets: w2.counts.tx_packets,
                tx_bytes: w2.counts.tx_bytes,
                ..w.counts
            }
            &&& w2.counts.tx_packets == wrapped(w.counts.tx_packets, 1)
            &&& w2.counts.tx_bytes == wrapped(w.counts.tx_bytes, p.data.len() as int)
        },
    }
}

/// A chain of the TX queue has its packet handled.
pub proof fn law_tx_packet_is_handled<L: HostVsockListener>(
    listener: Option<L>,
    w: TxWork<L::Stream>,
    m: MemState,
    chain: vqueue::ChainView,
    w2: TxWork<L::Stream>,
    m2: MemState,
    answer: Option<u32>,
)
    requires
        vsock::tx_step(listener)(w, m, chain, w2, m2, answer),
    ensures
        takes(listener, w, m, chain.readable, w2, m2, answer),
{
    if let Some(p) = packet::packet_in(m.ram, chain.readable) {
        law_packet_is_read_whole(buffers::gather(m.ram, chain.readable));
    }
}

/// The turn of a chain of the RX queue is as [`gives`] says.
pub open spec fn is_given(turn: Turn<RxWork>) -> bool {
    gives(
        turn.at.work,
        turn.at.pass.mem,
        turn.chain.writable,
        turn.work,
        turn.mem,
        turn.answer,
    )
}

/// The turn of a chain of the TX queue is as [`takes`] says.
pub open spec fn is_taken<L: HostVsockListener>(
    listener: Option<L>,
    turn: Turn<TxWork<L::Stream>>,
) -> bool {
    takes(
        listener,
        turn.at.work,
        turn.at.pass.mem,
        turn.chain.readable,
        turn.work,
        turn.mem,
        turn.answer,
    )
}

proof fn lemma_is_given(
    config: QueueConfig,
    target: u16,
    from: Pass<RxWork>,
    turn: Turn<RxWork>,
)
    requires
        trace_laws::reaches(config, target, from, turn),
        vsock::rx_step()(
            turn.at.work,
            turn.at.pass.mem,
            turn.chain,
            turn.work,
            turn.mem,
            turn.answer,
        ),
    ensures
        is_given(turn),
{
    vqueue::lemma_chain_buffers(turn.at.pass.mem.ram, config, turn.head);
    law_rx_packet_is_given_whole(
        turn.at.work,
        turn.at.pass.mem,
        turn.chain.writable,
        turn.work,
        turn.mem,
        turn.answer,
    );
}

proof fn lemma_is_taken<L: HostVsockListener>(
    listener: Option<L>,
    turn: Turn<TxWork<L::Stream>>,
)
    requires
        vsock::tx_step(listener)(
            turn.at.work,
            turn.at.pass.mem,
            turn.chain,
            turn.work,
            turn.mem,
            turn.answer,
        ),
    ensures
        is_taken(listener, turn),
{
    law_tx_packet_is_handled(
        listener,
        turn.at.work,
        turn.at.pass.mem,
        turn.chain,
        turn.work,
        turn.mem,
        turn.answer,
    );
}

/// The place where a queue of the device starts: that of its processor, or the saved one.
pub open spec fn start_of_queue<S>(
    s: VsockView<S>,
    p: Option<VirtQueueProcessor>,
    i: int,
) -> Option<VirtQueueProcessor> {
    match p {
        Some(p) => Some(p),
        None => if i < s.positions.len() {
            Some(
                VirtQueueProcessor {
                    config: s.queues[i].config(),
                    last_avail_idx: s.positions[i].last_avail_idx,
                    last_used_idx: s.positions[i].last_used_idx,
                },
            )
        } else {
            None
        },
    }
}

/// The interrupt of the queues was raised, or nothing was.
pub open spec fn is_interrupted<S>(s: VsockView<S>, t: VsockView<S>, raised: bool) -> bool {
    if raised {
        &&& t.regs == TransportRegs { interrupt_status: s.regs.interrupt_status | 1, ..s.regs }
        &&& t.pending_irqs == wrapped(s.pending_irqs, 1)
    } else {
        t.regs == s.regs && t.pending_irqs == s.pending_irqs
    }
}

/// The RX queue is worked through chain by chain, from where the device stood to the index that
/// the guest has set. Each chain is taken up as [`gives`] says, so the packets that waited go to
/// the guest in their order. The guest is interrupted where a chain went back. Nothing else of the
/// device changes.
#[verifier::spinoff_prover]
#[verifier::rlimit(60)]
pub proof fn law_rx_fills_every_chain<S>(s: VsockView<S>, t: VsockView<S>, done: nat) -> (r: (
    Seq<Pass<RxWork>>,
    Seq<Turn<RxWork>>,
    Pass<RxWork>,
))
    requires
        vsock::rx_processed(s, t, done),
        s.can_process(0),
        vqueue::queue_usable(s.ram->0, s.queues[0].config()),
    ensures
        ({
            let config = s.queues[0].config();
            let target = trace_laws::word16(s.ram->0, config.avail_ring_addr + 2) as u16;
            let (states, turns, end) = r;
            &&& trace_laws::starts_at(
                start_of_queue(s, s.rx_processor, 0),
                s.ram->0,
                s.dirty,
                states[0].pass,
            )
            &&& states[0].work == RxWork { pending: s.bridge.pending, counts: s.counts }
            &&& trace_laws::in_turn(vsock::rx_step(), config, target, states, turns)
            &&& forall|i: int| 0 <= i < turns.len() ==> is_given(#[trigger] turns[i])
            &&& trace_laws::ends(config, target, states, turns, end)
            &&& trace_laws::is_over(config, end.pass, t.rx_processor, t.ram->0, t.dirty)
            &&& t.bridge == BridgeView { pending: end.work.pending, ..s.bridge }
            &&& t.counts == end.work.counts
            &&& done == end.pass.done
            &&& is_interrupted(s, t, done > 0)
            &&& t == VsockView {
                bridge: t.bridge,
                counts: t.counts,
                rx_processor: t.rx_processor,
                ram: t.ram,
                dirty: t.dirty,
                regs: t.regs,
                pending_irqs: t.pending_irqs,
                ..s
            }
            &&& t.ram is Some
            &&& t.dirty is Some == s.dirty is Some
        }),
{
    let config = s.queues[0].config();
    trace_laws::law_rings_stand_in_memory(s.ram->0, config, 0);
    let target = vqueue::avail_ring_idx(s.ram->0, config);
    let w = lemma_rx_pass(s, t, done);
    let (states, turns) = lemma_rx_trace(config, target, s.rx_start(), w);
    lemma_rx_over(s, t, w);
    (states, turns, w)
}

proof fn lemma_rx_pass<S>(s: VsockView<S>, t: VsockView<S>, done: nat) -> (w: Pass<RxWork>)
    requires
        vsock::rx_processed(s, t, done),
        s.can_process(0),
        vqueue::queue_usable(s.ram->0, s.queues[0].config()),
    ensures
        vqueue::device_pass(
            vsock::rx_step(),
            s.queues[0].config(),
            vqueue::avail_ring_idx(s.ram->0, s.queues[0].config()),
            s.rx_start(),
            w,
        ),
        t == s.rx_finished(w),
        done == w.pass.done,
{
    choose|w: Pass<RxWork>|
        #[trigger] vqueue::device_pass(
            vsock::rx_step(),
            s.queues[0].config(),
            vqueue::avail_ring_idx(s.ram->0, s.queues[0].config()),
            s.rx_start(),
            w,
        ) && t == s.rx_finished(w) && done == w.pass.done
}

proof fn lemma_rx_trace(
    config: QueueConfig,
    target: u16,
    s: Pass<RxWork>,
    w: Pass<RxWork>,
) -> (r: (Seq<Pass<RxWork>>, Seq<Turn<RxWork>>))
    requires
        config.size > 0,
        vqueue::device_pass(vsock::rx_step(), config, target, s, w),
    ensures
        r.0.len() > 0 && r.0[0] == s,
        trace_laws::in_turn(vsock::rx_step(), config, target, r.0, r.1),
        trace_laws::ends(config, target, r.0, r.1, w),
        forall|i: int| 0 <= i < r.1.len() ==> is_given(#[trigger] r.1[i]),
{
    let (states, turns) = trace_laws::law_pass_goes_in_turn(
        vsock::rx_step(),
        config,
        target,
        s,
        w,
    );
    assert forall|i: int| 0 <= i < turns.len() implies is_given(#[trigger] turns[i]) by {
        lemma_is_given(config, target, states[i], turns[i]);
    }
    (states, turns)
}

proof fn lemma_rx_over<S>(s: VsockView<S>, t: VsockView<S>, w: Pass<RxWork>)
    requires
        s.ram is Some,
        t == s.rx_finished(w),
    ensures
        trace_laws::is_over(s.queues[0].config(), w.pass, t.rx_processor, t.ram->0, t.dirty),
        t.bridge == (BridgeView { pending: w.work.pending, ..s.bridge }),
        t.counts == w.work.counts,
        is_interrupted(s, t, w.pass.done > 0),
        t == (VsockView {
            bridge: t.bridge,
            counts: t.counts,
            rx_processor: t.rx_processor,
            ram: t.ram,
            dirty: t.dirty,
            regs: t.regs,
            pending_irqs: t.pending_irqs,
            ..s
        }),
        t.ram is Some,
        t.dirty is Some == s.dirty is Some,
{
    trace_laws::lemma_is_over(
        s.queues[0].config(),
        w.pass,
        vqueue::used_idx_stored(w.pass.mem, s.queues[0].config(), w.pass.used),
    );
}

/// The TX queue is worked through chain by chain, from where the device stood to the index that
/// the guest has set. The packet of each chain is handled as [`takes`] says, by the connections as
/// the one before it left them. The guest is interrupted where a chain went back. Nothing else of
/// the device changes.
#[verifier::spinoff_prover]
#[verifier::rlimit(60)]
pub proof fn law_tx_handles_every_chain<L: HostVsockListener>(
    listener: Option<L>,
    s: VsockView<L::Stream>,
    t: VsockView<L::Stream>,
    done: nat,
) -> (r: (Seq<Pass<TxWork<L::Stream>>>, Seq<Turn<TxWork<L::Stream>>>, Pass<TxWork<L::Stream>>))
    requires
        vsock::tx_drained(listener, s, t, done),
        s.can_process(1),
        vqueue::queue_usable(s.ram->0, s.queues[1].config()),
    ensures
        ({
            let config = s.queues[1].config();
            let target = trace_laws::word16(s.ram->0, config.avail_ring_addr + 2) as u16;
            let (states, turns, end) = r;
            &&& trace_laws::starts_at(
                start_of_queue(s, s.tx_processor, 1),
                s.ram->0,
                s.dirty,
                states[0].pass,
            )
            &&& states[0].work == TxWork { bridge: s.bridge, counts: s.counts }
            &&& trace_laws::in_turn(vsock::tx_step(listener), config, target, states, turns)
            &&& forall|i: int| 0 <= i < turns.len() ==> is_taken(listener, #[trigger] turns[i])
            &&& trace_laws::ends(config, target, states, turns, end)
            &&& trace_laws::is_over(config, end.pass, t.tx_processor, t.ram->0, t.dirty)
            &&& t.bridge == end.work.bridge
            &&& t.counts == end.work.counts
            &&& done == end.pass.done
            &&& is_interrupted(s, t, done > 0)
            &&& t == VsockView {
                bridge: t.bridge,
                counts: t.counts,
                tx_processor: t.tx_processor,
                ram: t.ram,
                dirty: t.dirty,
                regs: t.regs,
                pending_irqs: t.pending_irqs,
                ..s
            }
            &&& t.ram is Some
            &&& t.dirty is Some == s.dirty is Some
        }),
{
    let config = s.queues[1].config();
    trace_laws::law_rings_stand_in_memory(s.ram->0, config, 0);
    let target = vqueue::avail_ring_idx(s.ram->0, config);
    let step = vsock::tx_step(listener);
    let w = choose|w: Pass<TxWork<L::Stream>>|
        #[trigger] vqueue::device_pass(step, config, target, s.tx_start(), w) && t == s.tx_finished(
            w,
        ) && done == w.pass.done;
    let (states, turns) = trace_laws::law_pass_goes_in_turn(step, config, target, s.tx_start(), w);
    assert forall|i: int| 0 <= i < turns.len() implies is_taken(listener, #[trigger] turns[i]) by {
        lemma_is_taken(listener, turns[i]);
    }
    trace_laws::lemma_is_over(
        config,
        w.pass,
        vqueue::used_idx_stored(w.pass.mem, config, w.pass.used),
    );
    (states, turns, w)
}

/// A kick of the TX queue handles what the guest sent and then, where a chain went back, gives the
/// guest what waits for it. Where a queue cannot be worked on, nothing changes but the processor
/// that was set up for it.
pub proof fn law_tx_kick_answers<L: HostVsockListener>(
    listener: Option<L>,
    s: VsockView<L::Stream>,
    t: VsockView<L::Stream>,
    done: nat,
) -> (mid: VsockView<L::Stream>)
    requires
        vsock::tx_processed(listener, s, t, done),
    ensures
        vsock::tx_drained(listener, s, mid, done),
        done == 0 ==> t == mid,
        done > 0 ==> exists|n: nat| vsock::rx_processed(mid, t, n),
        !s.can_process(1) || !vqueue::queue_usable(s.ram->0, s.queues[1].config()) ==> done == 0
            && t == (VsockView { tx_processor: t.tx_processor, ..s }),
{
    choose|mid: VsockView<L::Stream>|
        #[trigger] vsock::tx_drained(listener, s, mid, done) && if done > 0 {
            vsock::delivered(mid, t)
        } else {
            t == mid
        }
}

/// Where the RX queue cannot be worked on, nothing changes but the processor that was set up for
/// it.
pub proof fn law_rx_does_nothing_without_a_queue<S>(s: VsockView<S>, t: VsockView<S>, done: nat)
    requires
        vsock::rx_processed(s, t, done),
        !s.can_process(0) || !vqueue::queue_usable(s.ram->0, s.queues[0].config()),
    ensures
        done == 0,
        t == (VsockView { rx_processor: t.rx_processor, ..s }),
{
}

} // verus!
