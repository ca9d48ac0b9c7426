//! virtio-vsock MMIO transport, host-side stream bridge.
//!
//! The device implements the virtio-mmio register contract and the packet core needed for
//! host-backed streams. A controller provides a connector with
//! [`VirtioVsockMmio::set_host_listener`] and drives [`VirtioVsockMmio::pump_host_streams`]. The
//! EVENT queue is not used.
use crate::bus::{MmioDevice, MmioError, MmioReadResult, MmioWriteResult};
use crate::bytes::{self, copy_range, push_all, push_le64, read_le64, zeros};
use crate::dirty::SoftwareDirtyBitmap;
use crate::guest_memory;
use crate::persist::{Persist, PersistError};
use crate::virtio::blk_transport::status_bits;
use crate::virtio::buffers::{self, descs_len, write_descs, MemState};
use crate::virtio::queue_state::{
    self, cleared_queues, copy_queues, is_queue_reg, read_queue_register, write_queue_register,
    QueueState,
};
use crate::virtio::regs::{reg, MAGIC};
use crate::virtio::transport_regs::{self, TransportRegs, ALL_FEATURES, VIRTIO_MMIO_INT_VRING};
use crate::virtio::vqueue::{
    self, ChainView, Pass, PassState, VirtQueueProcessor, VirtQueueProcessorState, MAX_QUEUE_SIZE,
};
use vm_memory::GuestMemoryMmap;
use vstd::prelude::*;

pub mod call_laws;
pub mod connections;
pub mod dialer;
pub mod laws;
pub mod op;
pub mod packet;
pub mod packet_type;
pub mod ports;
pub mod pump;
pub mod shutdown_flags;
pub mod stream_laws;
pub mod traffic_laws;

pub use connections::{
    Connection, ConnectionKey, HostReadError, HostVsockListener, HostVsockStream, VsockBridge,
    VsockConnectionState, MAX_CONNECTIONS, MAX_PENDING_RX, VSOCK_HOST_CID,
};
pub use dialer::Dialer;
pub use packet::{VsockPacket, VsockPacketHeader, VSOCK_HEADER_LEN};

use connections::{host_packet, BridgeView, DEFAULT_BUF_ALLOC};
use packet::{read_packet_from_descs, PacketView};
use ports::HOST_EPHEMERAL_PORT_START;

verus! {

pub const DEVICE_ID_VSOCK: u32 = 19;

pub const QUEUE_RX: usize = 0;

pub const QUEUE_TX: usize = 1;

pub const QUEUE_EVENT: usize = 2;

pub const QUEUE_COUNT: usize = 3;

pub const VSOCK_FEATURES_LOW: u32 = 0;

/// VIRTIO_F_VERSION_1 (bit 32).
pub const VSOCK_FEATURES_HIGH: u32 = 1;

/// Snapshot state of a vsock device.
#[derive(Debug, Clone, PartialEq, Eq)]
pub struct VirtioVsockMmioState {
    pub regs: TransportRegs,
    pub queues: Vec<QueueState>,
    /// The place in the rings of each queue.
    pub positions: Vec<VirtQueueProcessorState>,
    pub connections: Vec<VsockConnectionState>,
}

/// How many packets and bytes of data went each way.
#[derive(Debug, Copy, Clone, PartialEq, Eq, Structural)]
pub struct VsockCounts {
    pub tx_packets: u64,
    pub rx_packets: u64,
    pub tx_bytes: u64,
    pub rx_bytes: u64,
}

/// The virtio-mmio transport for a vsock device.
pub struct VirtioVsockMmio<L: HostVsockListener> {
    pub irq: u32,
    pub device_id: u32,
    pub vendor_id: u32,
    pub version: u32,
    pub guest_cid: u64,
    pub regs: TransportRegs,
    pub queues: Vec<QueueState>,
    pub positions: Vec<VirtQueueProcessorState>,
    pub guest_mem: Option<GuestMemoryMmap>,
    pub host_dirty: Option<SoftwareDirtyBitmap>,
    pub rx_processor: Option<VirtQueueProcessor>,
    pub tx_processor: Option<VirtQueueProcessor>,
    pub bridge: VsockBridge<L>,
    pub next_host_port: u32,
    /// Interrupts that the guest is still to be sent.
    pub pending_irqs: u64,
    pub status_writes: u64,
    pub notify_count: u64,
    pub counts: VsockCounts,
}

/// The state of a [`VirtioVsockMmio`].
#[verifier::ext_equal]
pub struct VsockView<S> {
    pub irq: u32,
    pub device_id: u32,
    pub vendor_id: u32,
    pub version: u32,
    pub guest_cid: u64,
    pub regs: TransportRegs,
    pub queues: Seq<QueueState>,
    pub positions: Seq<VirtQueueProcessorState>,
    pub ram: Option<Map<int, u8>>,
    pub dirty: Option<Seq<(u64, u64)>>,
    pub rx_processor: Option<VirtQueueProcessor>,
    pub tx_processor: Option<VirtQueueProcessor>,
    pub bridge: BridgeView<S>,
    pub next_host_port: u32,
    pub pending_irqs: u64,
    pub status_writes: u64,
    pub notify_count: u64,
    pub counts: VsockCounts,
}

impl<L: HostVsockListener> View for VirtioVsockMmio<L> {
    type V = VsockView<L::Stream>;

    open spec fn view(&self) -> VsockView<L::Stream> {
        VsockView {
            irq: self.irq,
            device_id: self.device_id,
            vendor_id: self.vendor_id,
            version: self.version,
            guest_cid: self.guest_cid,
            regs: self.regs,
            queues: self.queues@,
            positions: self.positions@,
            ram: match self.guest_mem {
                Some(m) => Some(guest_memory::guest_bytes(m)),
                None => None,
            },
            dirty: match self.host_dirty {
                Some(d) => Some(d@),
                None => None,
            },
            rx_processor: self.rx_processor,
            tx_processor: self.tx_processor,
            bridge: self.bridge@,
            next_host_port: self.next_host_port,
            pending_irqs: self.pending_irqs,
            status_writes: self.status_writes,
            notify_count: self.notify_count,
            counts: self.counts,
        }
    }
}

/// A device with this status takes nothing but a reset.
pub open spec fn failed_status(status: u32) -> bool {
    status & (status_bits::DEVICE_NEEDS_RESET | status_bits::FAILED) != 0
}

/// The position of a queue that was never used.
pub open spec fn start_position() -> VirtQueueProcessorState {
    VirtQueueProcessorState { last_avail_idx: 0, last_used_idx: 0 }
}

/// The processor for a queue as the registers describe it: it keeps its place, or starts at the
/// given one.
pub open spec fn placed(
    processor: Option<VirtQueueProcessor>,
    q: QueueState,
    at: VirtQueueProcessorState,
) -> VirtQueueProcessor {
    match processor {
        None => VirtQueueProcessor {
            config: q.config(),
            last_avail_idx: at.last_avail_idx,
            last_used_idx: at.last_used_idx,
        },
        Some(p) => VirtQueueProcessor { config: q.config(), ..p },
    }
}

/// What a pass over the TX queue works on.
#[verifier::ext_equal]
pub struct TxWork<S> {
    pub bridge: BridgeView<S>,
    pub counts: VsockCounts,
}

/// What a pass over the RX queue works on.
#[verifier::ext_equal]
pub struct RxWork {
    pub pending: Seq<PacketView>,
    pub counts: VsockCounts,
}

impl VsockCounts {
    pub open spec fn received(self, n: u64) -> VsockCounts {
        VsockCounts {
            tx_packets: transport_regs::counted(self.tx_packets),
            tx_bytes: transport_regs::counted_by(self.tx_bytes, n),
            ..self
        }
    }

    pub open spec fn delivered(self, n: u64) -> VsockCounts {
        VsockCounts {
            rx_packets: transport_regs::counted(self.rx_packets),
            rx_bytes: transport_regs::counted_by(self.rx_bytes, n),
            ..self
        }
    }
}

/// How a chain of the TX queue may be taken up: the packet in it is counted and handled; a chain
/// that holds none is passed over. It is completed with no bytes written.
pub open spec fn tx_step<L: HostVsockListener>(listener: Option<L>) -> vqueue::ChainStep<
    TxWork<L::Stream>,
> {
    |
        w: TxWork<L::Stream>,
        m: MemState,
        chain: ChainView,
        w2: TxWork<L::Stream>,
        m2: MemState,
        answer: Option<u32>,
    |
        answer == Some(0u32) && m2 == m && tx_taken(listener, w, packet::packet_in(
            m.ram,
            chain.readable,
        ), w2)
}

/// How the packet in a chain may be handled.
pub open spec fn tx_taken<L: HostVsockListener>(
    listener: Option<L>,
    w: TxWork<L::Stream>,
    p: Option<PacketView>,
    w2: TxWork<L::Stream>,
) -> bool {
    match p {
        None => w2 == w,
        Some(p) => w2.counts == w.counts.received(p.data.len() as u64) && connections::tx_handled(
            listener,
            w.bridge,
            p,
            w2.bridge,
        ),
    }
}

/// How a chain of the RX queue is taken up: the first waiting packet goes into it. A chain that
/// is too short for the packet is given back empty, and with no packet left the chain stays.
pub open spec fn rx_step() -> vqueue::ChainStep<RxWork> {
    |w: RxWork, m: MemState, chain: ChainView, w2: RxWork, m2: MemState, answer: Option<u32>|
        rx_taken(w, m, chain.writable, w2, m2, answer)
}

pub open spec fn rx_taken(
    w: RxWork,
    m: MemState,
    writable: Seq<(u64, u32)>,
    w2: RxWork,
    m2: MemState,
    answer: Option<u32>,
) -> bool {
    if w.pending.len() == 0 {
        answer is None && w2 == w && m2 == m
    } else {
        let data = w.pending[0].encoded();
        if buffers::total_len(writable) < data.len() {
            answer == Some(0u32) && w2 == w && m2 == m
        } else {
            &&& answer == Some(data.len() as u32)
            &&& m2 == buffers::scatter(m, writable, data)
            &&& w2 == RxWork {
                pending: w.pending.skip(1),
                counts: w.counts.delivered(w.pending[0].data.len() as u64),
            }
        }
    }
}

impl<S> VsockView<S> {
    pub open spec fn failed(self) -> bool {
        failed_status(self.regs.status)
    }

    /// There is memory, and queue `i` is ready with a valid size.
    pub open spec fn can_process(self, i: int) -> bool {
        &&& self.ram is Some
        &&& i < self.queues.len()
        &&& self.queues[i].ready
        &&& self.queues[i].sized()
    }

    /// Where queue `i` starts.
    pub open spec fn position(self, i: int) -> VirtQueueProcessorState {
        if i < self.positions.len() {
            self.positions[i]
        } else {
            start_position()
        }
    }

    pub open spec fn mem(self) -> MemState {
        MemState { ram: self.ram->0, marks: queue_state::recorded(self.dirty) }
    }

    pub open spec fn with_mem(self, m: MemState) -> VsockView<S> {
        VsockView {
            ram: Some(m.ram),
            dirty: match self.dirty {
                Some(_) => Some(m.marks),
                None => None,
            },
            ..self
        }
    }

    pub open spec fn interrupted(self) -> VsockView<S> {
        VsockView {
            regs: self.regs.interrupted(VIRTIO_MMIO_INT_VRING),
            pending_irqs: transport_regs::counted(self.pending_irqs),
            ..self
        }
    }

    /// The device, interrupted if `done` chains are more than none.
    pub open spec fn interrupted_if(self, done: nat) -> VsockView<S> {
        if done > 0 {
            self.interrupted()
        } else {
            self
        }
    }

    pub open spec fn rx_start(self) -> Pass<RxWork> {
        Pass {
            pass: PassState::start(
                placed(self.rx_processor, self.queues[0], self.position(0)),
                self.mem(),
            ),
            work: RxWork { pending: self.bridge.pending, counts: self.counts },
        }
    }

    pub open spec fn rx_finished(self, w: Pass<RxWork>) -> VsockView<S> {
        let config = self.queues[0].config();
        VsockView {
            rx_processor: Some(
                VirtQueueProcessor {
                    config,
                    last_avail_idx: w.pass.avail,
                    last_used_idx: w.pass.used,
                },
            ),
            bridge: BridgeView { pending: w.work.pending, ..self.bridge },
            counts: w.work.counts,
            ..self
        }.with_mem(
            vqueue::used_idx_stored(w.pass.mem, config, w.pass.used),
        ).interrupted_if(w.pass.done)
    }

    pub open spec fn tx_start(self) -> Pass<TxWork<S>> {
        Pass {
            pass: PassState::start(
                placed(self.tx_processor, self.queues[1], self.position(1)),
                self.mem(),
            ),
            work: TxWork { bridge: self.bridge, counts: self.counts },
        }
    }

    pub open spec fn tx_finished(self, w: Pass<TxWork<S>>) -> VsockView<S> {
        let config = self.queues[1].config();
        VsockView {
            tx_processor: Some(
                VirtQueueProcessor {
                    config,
                    last_avail_idx: w.pass.avail,
                    last_used_idx: w.pass.used,
                },
            ),
            bridge: w.work.bridge,
            counts: w.work.counts,
            ..self
        }.with_mem(
            vqueue::used_idx_stored(w.pass.mem, config, w.pass.used),
        ).interrupted_if(w.pass.done)
    }

    /// The device after a reset: everything negotiated is gone, and so are the connections.
    pub open spec fn reset(self) -> VsockView<S> {
        VsockView {
            regs: TransportRegs::cleared(),
            queues: Seq::new(self.queues.len(), |i: int| QueueState::cleared()),
            positions: Seq::new(self.positions.len(), |i: int| start_position()),
            rx_processor: None,
            tx_processor: None,
            bridge: BridgeView {
                connections: Seq::empty(),
                pending: Seq::empty(),
                ..self.bridge
            },
            ..self
        }
    }

    /// The positions that are saved: those of the processors, where there are any.
    pub open spec fn saved_positions(self) -> Seq<VirtQueueProcessorState> {
        Seq::new(
            self.positions.len(),
            |i: int|
                if i == QUEUE_RX && self.rx_processor is Some {
                    queue_state::saved_processor(self.rx_processor)->0
                } else if i == QUEUE_TX && self.tx_processor is Some {
                    queue_state::saved_processor(self.tx_processor)->0
                } else {
                    self.positions[i]
                },
        )
    }

    /// The device after it took back a saved transport. Connections are not taken back.
    pub open spec fn restored(
        self,
        regs: TransportRegs,
        queues: Seq<QueueState>,
        positions: Seq<VirtQueueProcessorState>,
    ) -> VsockView<S> {
        VsockView {
            regs,
            queues,
            positions,
            rx_processor: None,
            tx_processor: None,
            bridge: BridgeView {
                connections: Seq::empty(),
                pending: Seq::empty(),
                ..self.bridge
            },
            ..self
        }
    }

    /// The device after a write to a register other than QUEUE_NOTIFY, when it has not failed
    /// or the write is a reset.
    pub open spec fn written(self, off: u64, val: u32) -> VsockView<S> {
        if off == reg::STATUS {
            let counted = VsockView {
                status_writes: transport_regs::counted(self.status_writes),
                ..self
            };
            if val == 0 {
                counted.reset()
            } else {
                VsockView { regs: self.regs.with_status(val), ..counted }
            }
        } else if queue_state::is_queue_register(off) {
            VsockView {
                queues: queue_state::queues_written(self.queues, self.regs.queue_sel, off, val),
                ..self
            }
        } else {
            VsockView { regs: self.regs.written(off, val, ALL_FEATURES, ALL_FEATURES), ..self }
        }
    }

    /// The device with one more notification counted.
    pub open spec fn notified(self) -> VsockView<S> {
        VsockView { notify_count: transport_regs::counted(self.notify_count), ..self }
    }

    /// What a read of `len` bytes at `off` gives: the guest's CID byte by byte in the
    /// configuration space, registers elsewhere.
    pub open spec fn register(self, off: u64, len: u8) -> u64 {
        if reg::CONFIG <= off < reg::CONFIG + 8 {
            cid_bytes_read(self.guest_cid, off - reg::CONFIG, len as int)
        } else {
            self.plain_register(off) as u64
        }
    }

    pub open spec fn plain_register(self, off: u64) -> u32 {
        if off == reg::MAGIC_VALUE {
            MAGIC
        } else if off == reg::VERSION {
            self.version
        } else if off == reg::DEVICE_ID {
            self.device_id
        } else if off == reg::VENDOR_ID {
            self.vendor_id
        } else if off == reg::HOST_FEATURES {
            if self.regs.host_features_sel == 0 {
                VSOCK_FEATURES_LOW
            } else if self.regs.host_features_sel == 1 {
                VSOCK_FEATURES_HIGH
            } else {
                0
            }
        } else if off == reg::QUEUE_NUM_MAX {
            if self.regs.queue_sel < QUEUE_COUNT {
                MAX_QUEUE_SIZE as u32
            } else {
                0
            }
        } else if off == reg::STATUS {
            self.regs.status
        } else if off == reg::INTERRUPT_STATUS {
            self.regs.interrupt_status
        } else if queue_state::is_queue_register(off) {
            queue_state::queues_register(self.queues, self.regs.queue_sel, off)
        } else {
            0
        }
    }
}

/// The number in `len` bytes of the CID from byte `k` on, as far as it goes.
pub open spec fn cid_bytes_read(cid: u64, k: int, len: int) -> u64 {
    let n = if len < 8 - k {
        len
    } else {
        8 - k
    };
    bytes::le64_at(
        bytes::le64_bytes(cid as int).subrange(k, k + n) + Seq::new((8 - n) as nat, |i: int| 0u8),
        0,
    ) as u64
}

/// How giving waiting packets to the guest may turn the device from `s` into `t`, with `done`
/// chains completed.
pub open spec fn rx_processed<S>(s: VsockView<S>, t: VsockView<S>, done: nat) -> bool {
    if !s.can_process(0) {
        t == s && done == 0
    } else if !vqueue::queue_usable(s.ram->0, s.queues[0].config()) {
        done == 0 && t == VsockView {
            rx_processor: Some(placed(s.rx_processor, s.queues[0], s.position(0))),
            ..s
        }
    } else {
        exists|w: Pass<RxWork>|
            #[trigger] vqueue::device_pass(
                rx_step(),
                s.queues[0].config(),
                vqueue::avail_ring_idx(s.ram->0, s.queues[0].config()),
                s.rx_start(),
                w,
            ) && t == s.rx_finished(w) && done == w.pass.done
    }
}

/// How handling the guest's packets may turn the device from `s` into `t`, with `done` chains
/// completed.
pub open spec fn tx_drained<L: HostVsockListener>(
    listener: Option<L>,
    s: VsockView<L::Stream>,
    t: VsockView<L::Stream>,
    done: nat,
) -> bool {
    if !s.can_process(1) {
        t == s && done == 0
    } else if !vqueue::queue_usable(s.ram->0, s.queues[1].config()) {
        done == 0 && t == VsockView {
            tx_processor: Some(placed(s.tx_processor, s.queues[1], s.position(1))),
            ..s
        }
    } else {
        exists|w: Pass<TxWork<L::Stream>>|
            #[trigger] vqueue::device_pass(
                tx_step(listener),
                s.queues[1].config(),
                vqueue::avail_ring_idx(s.ram->0, s.queues[1].config()),
                s.tx_start(),
                w,
            ) && t == s.tx_finished(w) && done == w.pass.done
    }
}

/// How a kick of the TX queue may turn the device from `s` into `t`: the guest's packets are
/// handled, and then what waits goes to the guest.
pub open spec fn tx_processed<L: HostVsockListener>(
    listener: Option<L>,
    s: VsockView<L::Stream>,
    t: VsockView<L::Stream>,
    done: nat,
) -> bool {
    exists|mid: VsockView<L::Stream>|
        #[trigger] tx_drained(listener, s, mid, done) && if done > 0 {
            delivered(mid, t)
        } else {
            t == mid
        }
}

/// How what waits may go to the guest.
pub open spec fn delivered<S>(s: VsockView<S>, t: VsockView<S>) -> bool {
    exists|done: nat| #[trigger] rx_processed(s, t, done)
}

/// Why no connection to the guest could be started.
#[derive(Debug, Copy, Clone, PartialEq, Eq, Structural)]
pub enum VsockConnectError {
    /// The device has failed and requires a reset.
    NeedsReset,
    /// There are as many connections as there may be.
    CapReached,
}

/// The device with a connection that the host starts from `port`, and the REQUEST for it queued.
pub open spec fn requested<S>(
    s: VsockView<S>,
    guest_port: u32,
    stream: S,
    port: u32,
    next: u32,
) -> VsockView<S> {
    let key = ConnectionKey { guest_cid: s.guest_cid, guest_port, host_port: port };
    VsockView {
        next_host_port: next,
        bridge: BridgeView {
            connections: connections::inserted(
                s.bridge.connections,
                Connection {
                    key,
                    stream,
                    peer_buf_alloc: DEFAULT_BUF_ALLOC,
                    peer_fwd_cnt: 0,
                    fwd_cnt: 0,
                    established: false,
                },
            ),
            ..s.bridge
        }.sent(connections::host_sends(key, op::REQUEST, 0, Seq::empty(), 0)),
        ..s
    }
}

/// How starting a connection to `guest_port` may go: it gets the first free port, and the REQUEST
/// goes to the guest.
pub open spec fn guest_connected<S>(
    s: VsockView<S>,
    guest_port: u32,
    stream: S,
    port: u32,
    t: VsockView<S>,
) -> bool {
    exists|n: int|
        #[trigger] ports::first_free(
            s.bridge.connections,
            s.guest_cid,
            guest_port,
            s.next_host_port,
            n,
        ) && port == ports::port_of(ports::counter_after(s.next_host_port, n)) && delivered(
            requested(
                s,
                guest_port,
                stream,
                port,
                ports::counter_after(s.next_host_port, n + 1),
            ),
            t,
        )
}

impl<L: HostVsockListener> VirtioVsockMmio<L> {
    pub fn new(irq: u32, guest_cid: u64) -> (d: Self)
        ensures
            d.bridge.connector() is None,
            d@ == (VsockView::<L::Stream> {
                irq,
                device_id: DEVICE_ID_VSOCK,
                vendor_id: 0,
                version: 2,
                guest_cid,
                regs: TransportRegs::cleared(),
                queues: Seq::new(QUEUE_COUNT as nat, |i: int| QueueState::cleared()),
                positions: Seq::new(QUEUE_COUNT as nat, |i: int| start_position()),
                ram: None,
                dirty: None,
                rx_processor: None,
                tx_processor: None,
                bridge: (BridgeView {
                    connections: Seq::empty(),
                    pending: Seq::empty(),
                    dialed: Seq::empty(),
                }),
                next_host_port: HOST_EPHEMERAL_PORT_START,
                pending_irqs: 0,
                status_writes: 0,
                notify_count: 0,
                counts: (VsockCounts { tx_packets: 0, rx_packets: 0, tx_bytes: 0, rx_bytes: 0 }),
            }),
            d@.bridge.wf(),
    {
        VirtioVsockMmio {
            irq,
            device_id: DEVICE_ID_VSOCK,
            vendor_id: 0,
            version: 2,
            guest_cid,
            regs: TransportRegs::new(),
            queues: cleared_queues(QUEUE_COUNT),
            positions: start_positions(QUEUE_COUNT),
            guest_mem: None,
            host_dirty: None,
            rx_processor: None,
            tx_processor: None,
            bridge: VsockBridge::new(),
            next_host_port: HOST_EPHEMERAL_PORT_START,
            pending_irqs: 0,
            status_writes: 0,
            notify_count: 0,
            counts: VsockCounts { tx_packets: 0, rx_packets: 0, tx_bytes: 0, rx_bytes: 0 },
        }
    }

    /// Marks the device as failed: from then on it takes nothing but a reset.
    pub fn fail_device(&mut self)
        ensures
            final(self)@ == (VsockView {
                regs: (TransportRegs {
                    status: old(self)@.regs.status | (status_bits::DEVICE_NEEDS_RESET
                        | status_bits::FAILED),
                    activated: false,
                    ..old(self)@.regs
                }),
                ..old(self)@
            }),
            final(self)@.failed(),
            final(self).bridge == old(self).bridge,
    {
        let status: u32 = self.regs.status;
        self.regs.status = status | (status_bits::DEVICE_NEEDS_RESET | status_bits::FAILED);
        self.regs.activated = false;
        assert((status | (64u32 | 128u32)) & (64u32 | 128u32) != 0) by (bit_vector);
    }

    pub fn is_failed(&self) -> (r: bool)
        ensures
            r == self@.failed(),
    {
        self.regs.status & (status_bits::DEVICE_NEEDS_RESET | status_bits::FAILED) != 0
    }

    pub fn ensure_operational(&self) -> (r: MmioWriteResult)
        ensures
            r == (if self@.failed() {
                Err(MmioError::Device)
            } else {
                Ok(())
            }),
    {
        if self.is_failed() {
            Err(MmioError::Device)
        } else {
            Ok(())
        }
    }

    pub fn current_status(&self) -> (st: u32)
        ensures
            st == self@.regs.status,
    {
        self.regs.status
    }

    pub fn is_activated(&self) -> (r: bool)
        ensures
            r == self@.regs.activated,
    {
        self.regs.activated
    }

    /// Takes the interrupts that are to be sent to the guest.
    pub fn take_irqs(&mut self) -> (n: u64)
        ensures
            n == old(self)@.pending_irqs,
            final(self)@ == (VsockView { pending_irqs: 0, ..old(self)@ }),
            final(self).bridge == old(self).bridge,
    {
        let n: u64 = self.pending_irqs;
        self.pending_irqs = 0;
        n
    }

    /// Set the guest memory.
    pub fn set_guest_memory(&mut self, mem: GuestMemoryMmap)
        ensures
            final(self)@ == (VsockView {
                ram: Some(guest_memory::guest_bytes(mem)),
                ..old(self)@
            }),
            final(self).bridge == old(self).bridge,
    {
        self.guest_mem = Some(mem);
    }

    /// Record what the device writes to guest memory in `dirty`.
    pub fn set_guest_dirty_tracker(&mut self, dirty: SoftwareDirtyBitmap)
        ensures
            final(self)@ == (VsockView { dirty: Some(dirty@), ..old(self)@ }),
            final(self).bridge == old(self).bridge,
    {
        self.host_dirty = Some(dirty);
    }

    /// Set where connections that the guest asks for end on the host.
    pub fn set_host_listener(&mut self, listener: L)
        ensures
            final(self)@ == (VsockView {
                bridge: BridgeView { dialed: Seq::empty(), ..old(self)@.bridge },
                ..old(self)@
            }),
            final(self).bridge.connector() == Some(listener),
    {
        self.bridge.listener = Some(Dialer::new(listener));
    }

    /// What is saved of the connections.
    pub fn active_connection_states(&self) -> (r: Vec<VsockConnectionState>)
        ensures
            r@ == pump::saved_all(self@.bridge.connections),
    {
        self.bridge.connection_states()
    }

    /// Raises the interrupt for used buffers.
    pub fn trigger_interrupt(&mut self)
        ensures
            final(self)@ == old(self)@.interrupted(),
            final(self).bridge == old(self).bridge,
    {
        self.regs.raise(VIRTIO_MMIO_INT_VRING);
        self.pending_irqs = self.pending_irqs.wrapping_add(1);
    }

    /// The processor for queue `i`, which keeps its place or starts at its saved one.
    fn place(
        &self,
        processor: Option<VirtQueueProcessor>,
        q: &QueueState,
        i: usize,
    ) -> (p: VirtQueueProcessor)
        ensures
            p == placed(processor, *q, self@.position(i as int)),
    {
        match processor {
            None => {
                let at = if i < self.positions.len() {
                    self.positions[i]
                } else {
                    VirtQueueProcessorState::default()
                };
                VirtQueueProcessor::new_with_indices(
                    q.queue_config(),
                    at.last_avail_idx,
                    at.last_used_idx,
                )
            },
            Some(p) => {
                let mut p = p;
                p.update_config(q.queue_config());
                p
            },
        }
    }

    /// Puts the first waiting packet into a chain, as far as there is one and it fits.
    fn fill_chain(
        mem: &mut GuestMemoryMmap,
        dirty: &mut SoftwareDirtyBitmap,
        bridge: &mut VsockBridge<L>,
        counts: &mut VsockCounts,
        writable: &Vec<(u64, u32)>,
    ) -> (answer: Option<u32>)
        requires
            old(bridge)@.wf(),
            buffers::all_mapped(guest_memory::guest_bytes(*old(mem)), writable@),
            buffers::total_len(writable@) <= vqueue::MAX_CHAIN_BYTES,
        ensures
            rx_taken(
                RxWork { pending: old(bridge)@.pending, counts: *old(counts) },
                buffers::mem_state(*old(mem), *old(dirty)),
                writable@,
                RxWork { pending: final(bridge)@.pending, counts: *final(counts) },
                buffers::mem_state(*final(mem), *final(dirty)),
                answer,
            ),
            guest_memory::guest_bytes(*final(mem)).dom() == guest_memory::guest_bytes(
                *old(mem),
            ).dom(),
            final(bridge)@.connections == old(bridge)@.connections,
            final(bridge)@.dialed == old(bridge)@.dialed,
            final(bridge)@.wf(),
            final(bridge).connector() == old(bridge).connector(),
    {
        if bridge.pending.len() == 0 {
            return None;
        }
        let ghost pending = bridge.pending@;
        let data_bytes: Vec<u8> = bridge.pending[0].to_bytes();
        let size: usize = bridge.pending[0].data.len();
        let ghost m0 = buffers::mem_state(*mem, *dirty);
        assert(writable@.take(writable@.len() as int) =~= writable@);
        let cap: usize = descs_len(writable.as_slice(), writable.len());
        if cap < data_bytes.len() {
            return Some(0);
        }
        let _written: usize = write_descs(
            mem,
            dirty,
            writable.as_slice(),
            writable.len(),
            data_bytes.as_slice(),
        );
        proof {
            buffers::lemma_scatter_dom(m0, writable@, data_bytes@);
        }
        let _packet = bridge.pending.pop_front();
        proof {
            assert(bridge.pending@ =~= pending.skip(1));
            assert(connections::packet_views(bridge.pending@) =~= connections::packet_views(
                pending,
            ).skip(1));
        }
        counts.rx_packets = counts.rx_packets.wrapping_add(1);
        counts.rx_bytes = counts.rx_bytes.wrapping_add(size as u64);
        Some(data_bytes.len() as u32)
    }

    /// Gives waiting packets to the guest; returns how many chains were completed.
    fn drain_rx(
        processor: &mut VirtQueueProcessor,
        mem: &mut GuestMemoryMmap,
        dirty: &mut SoftwareDirtyBitmap,
        bridge: &mut VsockBridge<L>,
        counts: &mut VsockCounts,
    ) -> (done: usize)
        requires
            old(bridge)@.wf(),
        ensures
            final(bridge)@.wf(),
            final(bridge).connector() == old(bridge).connector(),
            final(bridge)@.connections == old(bridge)@.connections,
            final(bridge)@.dialed == old(bridge)@.dialed,
            final(processor).config == old(processor).config,
            !vqueue::queue_usable(guest_memory::guest_bytes(*old(mem)), old(processor).config)
                ==> {
                &&& done == 0
                &&& *final(processor) == *old(processor)
                &&& buffers::mem_state(*final(mem), *final(dirty)) == buffers::mem_state(
                    *old(mem),
                    *old(dirty),
                )
                &&& final(bridge)@ == old(bridge)@
                &&& *final(counts) == *old(counts)
            },
            vqueue::queue_usable(guest_memory::guest_bytes(*old(mem)), old(processor).config)
                ==> exists|w: Pass<RxWork>|
                {
                    &&& #[trigger] vqueue::device_pass(
                        rx_step(),
                        old(processor).config,
                        vqueue::avail_ring_idx(
                            guest_memory::guest_bytes(*old(mem)),
                            old(processor).config,
                        ),
                        Pass {
                            pass: PassState::start(
                                *old(processor),
                                buffers::mem_state(*old(mem), *old(dirty)),
                            ),
                            work: RxWork { pending: old(bridge)@.pending, counts: *old(counts) },
                        },
                        w,
                    )
                    &&& final(processor).last_avail_idx == w.pass.avail
                    &&& final(processor).last_used_idx == w.pass.used
                    &&& done == w.pass.done
                    &&& buffers::mem_state(*final(mem), *final(dirty)) == vqueue::used_idx_stored(
                        w.pass.mem,
                        old(processor).config,
                        w.pass.used,
                    )
                    &&& final(bridge)@.pending == w.work.pending
                    &&& *final(counts) == w.work.counts
                },
    {
        let target: u16 = match processor.available(mem) {
            Some(idx) => idx,
            None => {
                return 0;
            },
        };
        let ghost config = processor.config;
        let ghost step = rx_step();
        let ghost s0 = Pass {
            pass: PassState::start(*processor, buffers::mem_state(*mem, *dirty)),
            work: RxWork { pending: bridge@.pending, counts: *counts },
        };
        let ghost mut s = s0;
        let mut done: usize = 0;
        loop
            invariant_except_break
                done + vqueue::idx_distance(s.pass.avail, target) <= 0xffff,
                forall|t: Pass<RxWork>|
                    #[trigger] vqueue::device_pass(step, config, target, s, t)
                        ==> vqueue::device_pass(step, config, target, s0, t),
            invariant
                step == rx_step(),
                processor.config == config,
                bridge@.wf(),
                bridge.connector() == old(bridge).connector(),
                bridge@.connections == old(bridge)@.connections,
                bridge@.dialed == old(bridge)@.dialed,
                vqueue::queue_usable(guest_memory::guest_bytes(*mem), config),
                s.pass.avail == processor.last_avail_idx,
                s.pass.used == processor.last_used_idx,
                s.pass.mem == buffers::mem_state(*mem, *dirty),
                s.pass.done == done,
                s.work == (RxWork { pending: bridge@.pending, counts: *counts }),
            ensures
                vqueue::device_pass(step, config, target, s0, s),
            decreases vqueue::idx_distance(processor.last_avail_idx, target),
        {
            let ghost k = s.skipped(config, target);
            proof {
                vqueue::lemma_skip_rejected(s.pass.mem.ram, config, s.pass.avail, target);
            }
            match processor.next_chain(mem, target) {
                None => {
                    assert(vqueue::device_pass(step, config, target, s, k));
                    proof {
                        s = k;
                    }
                    break;
                },
                Some((head, chain)) => {
                    let ghost before = guest_memory::guest_bytes(*mem);
                    proof {
                        vqueue::lemma_chain_buffers(before, config, head);
                    }
                    let answer = Self::fill_chain(mem, dirty, bridge, counts, &chain.writable);
                    let ghost m = buffers::mem_state(*mem, *dirty);
                    let ghost w = RxWork { pending: bridge@.pending, counts: *counts };
                    let ghost c = vqueue::chain_from(
                        k.pass.mem.ram,
                        config,
                        vqueue::avail_head(k.pass.mem.ram, config, k.pass.avail),
                    )->0;
                    proof {
                        assert(step(k.work, k.pass.mem, c, w, m, answer));
                        vqueue::lemma_usable_dom(before, m.ram, config);
                    }
                    match answer {
                        None => {
                            let ghost t = k.worked(w, m);
                            assert(vqueue::device_pass(step, config, target, s, t));
                            proof {
                                s = t;
                            }
                            break;
                        },
                        Some(len) => {
                            processor.complete_chain(mem, dirty, head, len);
                            proof {
                                vqueue::lemma_usable_dom(
                                    m.ram,
                                    guest_memory::guest_bytes(*mem),
                                    config,
                                );
                                let next = k.worked(w, m).completed(config, head, len);
                                assert forall|t: Pass<RxWork>|
                                    #[trigger] vqueue::device_pass(
                                        step,
                                        config,
                                        target,
                                        next,
                                        t,
                                    ) implies vqueue::device_pass(
                                    step,
                                    config,
                                    target,
                                    s0,
                                    t,
                                ) by {
                                    assert(step(k.work, k.pass.mem, c, w, m, answer));
                                    assert(vqueue::device_pass(step, config, target, s, t));
                                }
                                s = next;
                            }
                            done = done + 1;
                        },
                    }
                },
            }
        }
        processor.publish_used(mem, dirty);
        done
    }
}

impl<L: HostVsockListener> VirtioVsockMmio<L> {
    /// Handles the guest's packets; returns how many chains were completed.
    fn drain_tx(
        processor: &mut VirtQueueProcessor,
        mem: &mut GuestMemoryMmap,
        dirty: &mut SoftwareDirtyBitmap,
        bridge: &mut VsockBridge<L>,
        counts: &mut VsockCounts,
    ) -> (done: usize)
        requires
            old(bridge)@.wf(),
        ensures
            final(bridge)@.wf(),
            final(bridge).connector() == old(bridge).connector(),
            final(processor).config == old(processor).config,
            !vqueue::queue_usable(guest_memory::guest_bytes(*old(mem)), old(processor).config)
                ==> {
                &&& done == 0
                &&& *final(processor) == *old(processor)
                &&& buffers::mem_state(*final(mem), *final(dirty)) == buffers::mem_state(
                    *old(mem),
                    *old(dirty),
                )
                &&& final(bridge)@ == old(bridge)@
                &&& *final(counts) == *old(counts)
            },
            vqueue::queue_usable(guest_memory::guest_bytes(*old(mem)), old(processor).config)
                ==> exists|w: Pass<TxWork<L::Stream>>|
                {
                    &&& #[trigger] vqueue::device_pass(
                        tx_step(old(bridge).connector()),
                        old(processor).config,
                        vqueue::avail_ring_idx(
                            guest_memory::guest_bytes(*old(mem)),
                            old(processor).config,
                        ),
                        Pass {
                            pass: PassState::start(
                                *old(processor),
                                buffers::mem_state(*old(mem), *old(dirty)),
                            ),
                            work: TxWork { bridge: old(bridge)@, counts: *old(counts) },
                        },
                        w,
                    )
                    &&& final(processor).last_avail_idx == w.pass.avail
                    &&& final(processor).last_used_idx == w.pass.used
                    &&& done == w.pass.done
                    &&& buffers::mem_state(*final(mem), *final(dirty)) == vqueue::used_idx_stored(
                        w.pass.mem,
                        old(processor).config,
                        w.pass.used,
                    )
                    &&& final(bridge)@ == w.work.bridge
                    &&& *final(counts) == w.work.counts
                },
    {
        let target: u16 = match processor.available(mem) {
            Some(idx) => idx,
            None => {
                return 0;
            },
        };
        let ghost config = processor.config;
        let ghost listener = bridge.connector();
        let ghost step = tx_step(listener);
        let ghost s0 = Pass {
            pass: PassState::start(*processor, buffers::mem_state(*mem, *dirty)),
            work: TxWork { bridge: bridge@, counts: *counts },
        };
        let ghost mut s = s0;
        let mut done: usize = 0;
        loop
            invariant_except_break
                done + vqueue::idx_distance(s.pass.avail, target) <= 0xffff,
                forall|t: Pass<TxWork<L::Stream>>|
                    #[trigger] vqueue::device_pass(step, config, target, s, t)
                        ==> vqueue::device_pass(step, config, target, s0, t),
            invariant
                listener == old(bridge).connector(),
                step == tx_step(listener),
                processor.config == config,
                bridge@.wf(),
                bridge.connector() == listener,
                vqueue::queue_usable(guest_memory::guest_bytes(*mem), config),
                s.pass.avail == processor.last_avail_idx,
                s.pass.used == processor.last_used_idx,
                s.pass.mem == buffers::mem_state(*mem, *dirty),
                s.pass.done == done,
                s.work == (TxWork { bridge: bridge@, counts: *counts }),
            ensures
                vqueue::device_pass(step, config, target, s0, s),
            decreases vqueue::idx_distance(processor.last_avail_idx, target),
        {
            let ghost k = s.skipped(config, target);
            proof {
                vqueue::lemma_skip_rejected(s.pass.mem.ram, config, s.pass.avail, target);
            }
            match processor.next_chain(mem, target) {
                None => {
                    assert(vqueue::device_pass(step, config, target, s, k));
                    proof {
                        s = k;
                    }
                    break;
                },
                Some((head, chain)) => {
                    let ghost m = buffers::mem_state(*mem, *dirty);
                    match read_packet_from_descs(mem, chain.readable.as_slice()) {
                        Some(packet) => {
                            counts.tx_packets = counts.tx_packets.wrapping_add(1);
                            counts.tx_bytes = counts.tx_bytes.wrapping_add(
                                packet.data.len() as u64,
                            );
                            bridge.handle_tx_packet(packet);
                        },
                        None => {},
                    }
                    let ghost w = TxWork { bridge: bridge@, counts: *counts };
                    let ghost c = vqueue::chain_from(
                        k.pass.mem.ram,
                        config,
                        vqueue::avail_head(k.pass.mem.ram, config, k.pass.avail),
                    )->0;
                    assert(tx_taken(
                        listener,
                        k.work,
                        packet::packet_in(k.pass.mem.ram, c.readable),
                        w,
                    ));
                    assert(step(k.work, k.pass.mem, c, w, m, Some(0u32)));
                    processor.complete_chain(mem, dirty, head, 0);
                    proof {
                        vqueue::lemma_usable_dom(
                            m.ram,
                            guest_memory::guest_bytes(*mem),
                            config,
                        );
                        let next = k.worked(w, m).completed(config, head, 0u32);
                        assert forall|t: Pass<TxWork<L::Stream>>|
                            #[trigger] vqueue::device_pass(step, config, target, next, t) implies
                            vqueue::device_pass(step, config, target, s0, t) by {
                            assert(step(k.work, k.pass.mem, c, w, m, Some(0u32)));
                            assert(vqueue::device_pass(step, config, target, s, t));
                        }
                        s = next;
                    }
                    done = done + 1;
                },
            }
        }
        processor.publish_used(mem, dirty);
        done
    }

    /// Gives waiting packets to the guest; returns how many chains were completed. A failed
    /// device does nothing.
    pub fn process_rx_queue(&mut self) -> (r: Result<usize, MmioError>)
        requires
            old(self)@.bridge.wf(),
        ensures
            final(self)@.bridge.wf(),
            final(self).bridge.connector() == old(self).bridge.connector(),
            match r {
                Ok(done) => !old(self)@.failed() && rx_processed(
                    old(self)@,
                    final(self)@,
                    done as nat,
                ),
                Err(e) => old(self)@.failed() && e == MmioError::Device && final(self)@ == old(
                    self,
                )@,
            },
            final(self)@.regs.status == old(self)@.regs.status,
    {
        if self.is_failed() {
            return Err(MmioError::Device);
        }
        if QUEUE_RX >= self.queues.len() {
            return Ok(0);
        }
        let q = self.queues[QUEUE_RX];
        if !q.ready || !q.valid_size() {
            return Ok(0);
        }
        match self.guest_mem.take() {
            None => Ok(0),
            Some(mem) => {
                let ghost config = q.config();
                let mut mem = mem;
                let saved = self.rx_processor.take();
                let mut processor = self.place(saved, &q, QUEUE_RX);
                let has_tracker = self.host_dirty.is_some();
                let mut dirty = match self.host_dirty.take() {
                    Some(d) => d,
                    None => SoftwareDirtyBitmap::new(),
                };
                let done: usize = Self::drain_rx(
                    &mut processor,
                    &mut mem,
                    &mut dirty,
                    &mut self.bridge,
                    &mut self.counts,
                );
                let ghost bridge = self.bridge@;
                let ghost counts = self.counts;
                self.guest_mem = Some(mem);
                if has_tracker {
                    self.host_dirty = Some(dirty);
                }
                self.rx_processor = Some(processor);
                if done > 0 {
                    self.trigger_interrupt();
                }
                proof {
                    let s = old(self)@;
                    if vqueue::queue_usable(s.ram->0, config) {
                        let w = choose|w: Pass<RxWork>|
                            {
                                &&& #[trigger] vqueue::device_pass(
                                    rx_step(),
                                    config,
                                    vqueue::avail_ring_idx(s.ram->0, config),
                                    s.rx_start(),
                                    w,
                                )
                                &&& processor.last_avail_idx == w.pass.avail
                                &&& processor.last_used_idx == w.pass.used
                                &&& done == w.pass.done
                                &&& buffers::mem_state(mem, dirty) == vqueue::used_idx_stored(
                                    w.pass.mem,
                                    config,
                                    w.pass.used,
                                )
                                &&& bridge.pending == w.work.pending
                                &&& counts == w.work.counts
                            };
                        assert(self@ =~= s.rx_finished(w));
                    } else {
                        assert(self@ =~= VsockView {
                            rx_processor: Some(placed(s.rx_processor, s.queues[0], s.position(0))),
                            ..s
                        });
                    }
                }
                Ok(done)
            },
        }
    }

    /// Handles the guest's packets, with what follows of it left waiting.
    fn take_tx(&mut self) -> (done: usize)
        requires
            old(self)@.bridge.wf(),
        ensures
            final(self)@.bridge.wf(),
            final(self).bridge.connector() == old(self).bridge.connector(),
            tx_drained(old(self).bridge.connector(), old(self)@, final(self)@, done as nat),
            final(self)@.regs.status == old(self)@.regs.status,
    {
        if QUEUE_TX >= self.queues.len() {
            return 0;
        }
        let q = self.queues[QUEUE_TX];
        if !q.ready || !q.valid_size() {
            return 0;
        }
        match self.guest_mem.take() {
            None => 0,
            Some(mem) => {
                let ghost config = q.config();
                let mut mem = mem;
                let saved = self.tx_processor.take();
                let mut processor = self.place(saved, &q, QUEUE_TX);
                let has_tracker = self.host_dirty.is_some();
                let mut dirty = match self.host_dirty.take() {
                    Some(d) => d,
                    None => SoftwareDirtyBitmap::new(),
                };
                let done: usize = Self::drain_tx(
                    &mut processor,
                    &mut mem,
                    &mut dirty,
                    &mut self.bridge,
                    &mut self.counts,
                );
                let ghost bridge = self.bridge@;
                let ghost counts = self.counts;
                self.guest_mem = Some(mem);
                if has_tracker {
                    self.host_dirty = Some(dirty);
                }
                self.tx_processor = Some(processor);
                if done > 0 {
                    self.trigger_interrupt();
                }
                proof {
                    let s = old(self)@;
                    if vqueue::queue_usable(s.ram->0, config) {
                        let w = choose|w: Pass<TxWork<L::Stream>>|
                            {
                                &&& #[trigger] vqueue::device_pass(
                                    tx_step(old(self).bridge.connector()),
                                    config,
                                    vqueue::avail_ring_idx(s.ram->0, config),
                                    s.tx_start(),
                                    w,
                                )
                                &&& processor.last_avail_idx == w.pass.avail
                                &&& processor.last_used_idx == w.pass.used
                                &&& done == w.pass.done
                                &&& buffers::mem_state(mem, dirty) == vqueue::used_idx_stored(
                                    w.pass.mem,
                                    config,
                                    w.pass.used,
                                )
                                &&& bridge == w.work.bridge
                                &&& counts == w.work.counts
                            };
                        assert(self@ =~= s.tx_finished(w));
                    } else {
                        assert(self@ =~= VsockView {
                            tx_processor: Some(placed(s.tx_processor, s.queues[1], s.position(1))),
                            ..s
                        });
                    }
                }
                done
            },
        }
    }

    /// Handles the guest's packets and gives the guest what waits for it; returns how many
    /// packets' chains were completed. A failed device does nothing.
    pub fn process_tx_queue(&mut self) -> (r: Result<usize, MmioError>)
        requires
            old(self)@.bridge.wf(),
        ensures
            final(self)@.bridge.wf(),
            final(self).bridge.connector() == old(self).bridge.connector(),
            match r {
                Ok(done) => !old(self)@.failed() && tx_processed(
                    old(self).bridge.connector(),
                    old(self)@,
                    final(self)@,
                    done as nat,
                ),
                Err(e) => old(self)@.failed() && e == MmioError::Device && final(self)@ == old(
                    self,
                )@,
            },
    {
        if self.is_failed() {
            return Err(MmioError::Device);
        }
        let done: usize = self.take_tx();
        let ghost mid = self@;
        if done > 0 {
            match self.process_rx_queue() {
                Ok(n) => {
                    assert(rx_processed(mid, self@, n as nat));
                    assert(delivered(mid, self@));
                },
                Err(e) => {
                    return Err(e);
                },
            }
        }
        assert(tx_drained(old(self).bridge.connector(), old(self)@, mid, done as nat));
        Ok(done)
    }

    /// Polls the host's ends of the connections and gives the guest what came; returns how many
    /// packets were made of it. A failed device does nothing.
    pub fn pump_host_streams(&mut self) -> (r: Result<usize, MmioError>)
        requires
            old(self)@.bridge.wf(),
        ensures
            final(self)@.bridge.wf(),
            final(self).bridge.connector() == old(self).bridge.connector(),
            match r {
                Ok(queued) => !old(self)@.failed() && streams_pumped(
                    old(self)@,
                    final(self)@,
                    queued as nat,
                ),
                Err(e) => old(self)@.failed() && e == MmioError::Device && final(self)@ == old(
                    self,
                )@,
            },
    {
        if self.is_failed() {
            return Err(MmioError::Device);
        }
        let queued: usize = self.bridge.pump();
        let ghost mid = self@;
        assert(mid =~= VsockView { bridge: mid.bridge, ..old(self)@ });
        if queued > 0 {
            match self.process_rx_queue() {
                Ok(n) => {
                    assert(rx_processed(mid, self@, n as nat));
                    assert(delivered(mid, self@));
                },
                Err(e) => {
                    return Err(e);
                },
            }
        }
        assert(pump::bridge_pumped(old(self)@.bridge, mid.bridge, queued as nat));
        Ok(queued)
    }

    /// Starts a connection to `guest_port` of the guest, whose host end is `stream`. Returns the
    /// host port that it got.
    pub fn connect_guest_stream(&mut self, guest_port: u32, stream: L::Stream) -> (r: Result<
        u32,
        VsockConnectError,
    >)
        requires
            old(self)@.bridge.wf(),
        ensures
            final(self)@.bridge.wf(),
            final(self).bridge.connector() == old(self).bridge.connector(),
            match r {
                Ok(port) => {
                    &&& !old(self)@.failed()
                    &&& old(self)@.bridge.connections.len() < MAX_CONNECTIONS
                    &&& guest_connected(old(self)@, guest_port, stream, port, final(self)@)
                },
                Err(VsockConnectError::NeedsReset) => old(self)@.failed() && final(self)@ == old(
                    self,
                )@,
                Err(VsockConnectError::CapReached) => {
                    &&& !old(self)@.failed()
                    &&& old(self)@.bridge.connections.len() >= MAX_CONNECTIONS
                    &&& final(self)@ == old(self)@
                },
            },
    {
        if self.is_failed() {
            return Err(VsockConnectError::NeedsReset);
        }
        if self.bridge.connections.len() >= MAX_CONNECTIONS {
            return Err(VsockConnectError::CapReached);
        }
        let (port, next) = self.bridge.free_port(self.guest_cid, guest_port, self.next_host_port);
        let ghost n = choose|n: int|
            {
                &&& #[trigger] ports::first_free(
                    self@.bridge.connections,
                    self.guest_cid,
                    guest_port,
                    self.next_host_port,
                    n,
                )
                &&& port == ports::port_of(ports::counter_after(self.next_host_port, n))
                &&& next == ports::counter_after(self.next_host_port, n + 1)
            };
        self.next_host_port = next;
        let key = ConnectionKey { guest_cid: self.guest_cid, guest_port, host_port: port };
        self.bridge.insert(
            Connection {
                key,
                stream,
                peer_buf_alloc: DEFAULT_BUF_ALLOC,
                peer_fwd_cnt: 0,
                fwd_cnt: 0,
                established: false,
            },
        );
        let none: Vec<u8> = Vec::new();
        assert(none@ =~= Seq::<u8>::empty());
        self.bridge.enqueue_rx(host_packet(key, op::REQUEST, 0, none, 0));
        let ghost mid = self@;
        assert(mid =~= requested(old(self)@, guest_port, stream, port, next));
        match self.process_rx_queue() {
            Ok(k) => {
                assert(rx_processed(mid, self@, k as nat));
                assert(delivered(mid, self@));
            },
            Err(_) => {
                return Err(VsockConnectError::NeedsReset);
            },
        }
        assert(ports::first_free(
            old(self)@.bridge.connections,
            old(self)@.guest_cid,
            guest_port,
            old(self)@.next_host_port,
            n,
        ));
        Ok(port)
    }

    /// Takes back a saved transport. Connections are not taken back.
    pub fn restore_transport_state(&mut self, state: &VirtioVsockMmioState)
        ensures
            final(self)@ == old(self)@.restored(state.regs, state.queues@, state.positions@),
            final(self)@.bridge.wf(),
            final(self).bridge.connector() == old(self).bridge.connector(),
    {
        self.regs = state.regs;
        self.queues = copy_queues(&state.queues);
        let positions = state.positions.clone();
        assert(positions@ =~= state.positions@);
        self.positions = positions;
        self.rx_processor = None;
        self.tx_processor = None;
        self.bridge.pending.clear();
        self.bridge.connections.clear();
        assert(self@ =~= old(self)@.restored(state.regs, state.queues@, state.positions@));
    }

    /// Tells the guest that connections of an earlier life are gone; returns how many.
    pub fn reset_restored_connections(&mut self, connections: &[VsockConnectionState]) -> (r:
        Result<usize, MmioError>)
        requires
            old(self)@.bridge.wf(),
        ensures
            final(self)@.bridge.wf(),
            final(self).bridge.connector() == old(self).bridge.connector(),
            match r {
                Ok(n) => !old(self)@.failed() && n == connections@.len() && connections_gone(
                    old(self)@,
                    connections@,
                    final(self)@,
                ),
                Err(e) => old(self)@.failed() && e == MmioError::Device && final(self)@ == old(
                    self,
                )@,
            },
    {
        if self.is_failed() {
            return Err(MmioError::Device);
        }
        if connections.len() == 0 {
            return Ok(0);
        }
        self.bridge.reset_connections(connections);
        let ghost mid = self@;
        assert(mid =~= VsockView {
            bridge: pump::connections_reset(old(self)@.bridge, connections@),
            ..old(self)@
        });
        match self.process_rx_queue() {
            Ok(n) => {
                assert(rx_processed(mid, self@, n as nat));
                assert(delivered(mid, self@));
            },
            Err(e) => {
                return Err(e);
            },
        }
        Ok(connections.len())
    }

    fn reset(&mut self)
        ensures
            final(self)@ == old(self)@.reset(),
            final(self)@.bridge.wf(),
            final(self).bridge.connector() == old(self).bridge.connector(),
    {
        self.regs = TransportRegs::new();
        self.queues = cleared_queues(self.queues.len());
        self.positions = start_positions(self.positions.len());
        self.rx_processor = None;
        self.tx_processor = None;
        self.bridge.pending.clear();
        self.bridge.connections.clear();
        assert(self@ =~= old(self)@.reset());
    }

    /// Reads the guest's CID from the configuration space.
    fn read_config(&self, off: u64, len: u8) -> (r: u64)
        requires
            reg::CONFIG <= off < reg::CONFIG + 8,
        ensures
            r == cid_bytes_read(self@.guest_cid, off - reg::CONFIG, len as int),
    {
        let k: usize = (off - reg::CONFIG) as usize;
        let mut cfg: Vec<u8> = Vec::new();
        push_le64(&mut cfg, self.guest_cid);
        assert(cfg@ =~= bytes::le64_bytes(self.guest_cid as int));
        let n: usize = if (len as usize) < 8 - k {
            len as usize
        } else {
            8 - k
        };
        let mut out = copy_range(cfg.as_slice(), k, k + n);
        let pad = zeros(8 - n);
        push_all(&mut out, pad.as_slice());
        read_le64(out.as_slice(), 0)
    }

    /// Saves the state of the device, unless it has failed.
    pub fn try_save(&self) -> (r: Result<VirtioVsockMmioState, PersistError>)
        ensures
            r is Ok == !self@.failed(),
            r matches Ok(s) ==> self.is_saved(s),
            r matches Err(PersistError::Unavailable(why)) ==> why@
                == "virtio-vsock is failed and requires reset"@,
    {
        if self.is_failed() {
            return Err(
                PersistError::Unavailable("virtio-vsock is failed and requires reset".to_owned()),
            );
        }
        Ok(self.snapshot_state())
    }

    /// `s` is what the device saves.
    pub open spec fn is_saved(&self, s: VirtioVsockMmioState) -> bool {
        &&& s.regs == self@.regs
        &&& s.queues@ == self@.queues
        &&& s.positions@ == self@.saved_positions()
        &&& s.connections@ == pump::saved_all(self@.bridge.connections)
    }

    fn snapshot_state(&self) -> (s: VirtioVsockMmioState)
        ensures
            self.is_saved(s),
    {
        let mut positions = self.positions.clone();
        assert(positions@ =~= self.positions@);
        match &self.rx_processor {
            Some(p) => {
                if QUEUE_RX < positions.len() {
                    positions.set(QUEUE_RX, p.save_state());
                }
            },
            None => {},
        }
        match &self.tx_processor {
            Some(p) => {
                if QUEUE_TX < positions.len() {
                    positions.set(QUEUE_TX, p.save_state());
                }
            },
            None => {},
        }
        assert(positions@ =~= self@.saved_positions());
        VirtioVsockMmioState {
            regs: self.regs,
            queues: copy_queues(&self.queues),
            positions,
            connections: self.bridge.connection_states(),
        }
    }
}

/// How polling the host's ends may turn the device from `s` into `t`, with `queued` packets made.
pub open spec fn streams_pumped<S: HostVsockStream>(
    s: VsockView<S>,
    t: VsockView<S>,
    queued: nat,
) -> bool {
    exists|b: BridgeView<S>|
        #[trigger] pump::bridge_pumped(s.bridge, b, queued) && if queued > 0 {
            delivered(VsockView { bridge: b, ..s }, t)
        } else {
            t == VsockView { bridge: b, ..s }
        }
}

/// How connections of an earlier life may be ended: they are dropped, and an RST for each goes to
/// the guest.
pub open spec fn connections_gone<S>(
    s: VsockView<S>,
    list: Seq<VsockConnectionState>,
    t: VsockView<S>,
) -> bool {
    if list.len() == 0 {
        t == s
    } else {
        delivered(VsockView { bridge: pump::connections_reset(s.bridge, list), ..s }, t)
    }
}

impl<L: HostVsockListener> Persist for VirtioVsockMmio<L> {
    type State = VirtioVsockMmioState;

    open spec fn can_save(&self) -> bool {
        !self@.failed()
    }

    fn save(&self) -> (s: VirtioVsockMmioState)
        ensures
            self.is_saved(s),
    {
        self.snapshot_state()
    }

    fn restore(&mut self, state: VirtioVsockMmioState)
        ensures
            final(self)@ == old(self)@.restored(state.regs, state.queues@, state.positions@),
            final(self)@.bridge.wf(),
            final(self).bridge.connector() == old(self).bridge.connector(),
    {
        self.restore_transport_state(&state);
    }
}

impl<L: HostVsockListener> MmioDevice for VirtioVsockMmio<L> {
    open spec fn reads(&self, off: u64, len: u8, r: MmioReadResult) -> bool {
        r == Ok::<u64, MmioError>(self@.register(off, len))
    }

    open spec fn writes(
        &self,
        off: u64,
        val: u64,
        len: u8,
        post: &Self,
        r: MmioWriteResult,
    ) -> bool {
        let v = val as u32;
        &&& post.bridge.connector() == self.bridge.connector()
        &&& if self@.failed() && !(off == reg::STATUS && v == 0) {
            r == Err::<(), MmioError>(MmioError::Device) && post@ == self@
        } else {
            &&& r == Ok::<(), MmioError>(())
            &&& if off != reg::QUEUE_NOTIFY {
                post@ == self@.written(off, v)
            } else if v == QUEUE_RX {
                delivered(self@.notified(), post@)
            } else if v == QUEUE_TX {
                tx_kicked(self.bridge.connector(), self@.notified(), post@)
            } else {
                post@ == self@.notified()
            }
        }
    }

    open spec fn inv(&self) -> bool {
        self@.bridge.wf()
    }

    fn mmio_read(&self, off: u64, len: u8) -> (r: MmioReadResult) {
        if reg::CONFIG <= off && off < reg::CONFIG + 8 {
            return Ok(self.read_config(off, len));
        }
        let val: u32 = if off == reg::MAGIC_VALUE {
            MAGIC
        } else if off == reg::VERSION {
            self.version
        } else if off == reg::DEVICE_ID {
            self.device_id
        } else if off == reg::VENDOR_ID {
            self.vendor_id
        } else if off == reg::HOST_FEATURES {
            if self.regs.host_features_sel == 0 {
                VSOCK_FEATURES_LOW
            } else if self.regs.host_features_sel == 1 {
                VSOCK_FEATURES_HIGH
            } else {
                0
            }
        } else if off == reg::QUEUE_NUM_MAX {
            if (self.regs.queue_sel as usize) < QUEUE_COUNT {
                MAX_QUEUE_SIZE as u32
            } else {
                0
            }
        } else if off == reg::STATUS {
            self.regs.status
        } else if off == reg::INTERRUPT_STATUS {
            self.regs.interrupt_status
        } else if is_queue_reg(off) {
            read_queue_register(&self.queues, self.regs.queue_sel, off)
        } else {
            0
        };
        Ok(val as u64)
    }

    fn mmio_write(&mut self, off: u64, val: u64, _len: u8) -> (r: MmioWriteResult) {
        let val: u32 = val as u32;
        if self.is_failed() && !(off == reg::STATUS && val == 0) {
            return Err(MmioError::Device);
        }
        if off == reg::STATUS {
            self.status_writes = self.status_writes.wrapping_add(1);
            if val == 0 {
                self.reset();
            } else {
                self.regs.set_status(val);
            }
        } else if off == reg::QUEUE_NOTIFY {
            self.notify_count = self.notify_count.wrapping_add(1);
            let ghost before = self@;
            if val == QUEUE_RX as u32 {
                match self.process_rx_queue() {
                    Ok(n) => {
                        assert(rx_processed(before, self@, n as nat));
                    },
                    Err(e) => {
                        return Err(e);
                    },
                }
            } else if val == QUEUE_TX as u32 {
                match self.process_tx_queue() {
                    Ok(n) => {
                        assert(tx_processed(self.bridge.connector(), before, self@, n as nat));
                    },
                    Err(e) => {
                        return Err(e);
                    },
                }
            }
        } else if is_queue_reg(off) {
            write_queue_register(&mut self.queues, self.regs.queue_sel, off, val);
        } else {
            self.regs.write(off, val, ALL_FEATURES, ALL_FEATURES);
        }
        Ok(())
    }
}

/// How a kick of the TX queue may go.
pub open spec fn tx_kicked<L: HostVsockListener>(
    listener: Option<L>,
    s: VsockView<L::Stream>,
    t: VsockView<L::Stream>,
) -> bool {
    exists|done: nat| #[trigger] tx_processed(listener, s, t, done)
}

/// Positions of queues that were never used.
fn start_positions(n: usize) -> (r: Vec<VirtQueueProcessorState>)
    ensures
        r@ == Seq::new(n as nat, |i: int| start_position()),
{
    let r = vec![VirtQueueProcessorState::default(); n];
    assert(r@ =~= Seq::new(n as nat, |i: int| start_position()));
    r
}

} // verus!
