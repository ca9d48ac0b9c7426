//! virtio-mmio transport for virtio-net: register decode and per-queue processing. Two queues:
//! RX (index 0), TX (index 1).
//!
//! The differences to virtio-blk are:
//!   * device_id = 1 (virtio-net), not 2.
//!   * Two queues instead of one.
//!   * Device-specific CONFIG space at 0x100..0x106 exposes the MAC.
//!   * On QUEUE_NOTIFY for TX (queue 1) packets are read out of the chain and handed to the tap.
//!     RX delivery is driven externally by `inject_rx_packet()`: the I/O loop calls it when a
//!     packet arrives on the tap.
//!
//! The `TAP` parameter is the function that writes one frame to the host's tap and returns what
//! the write returned: the bytes written, or a value that is not positive on failure.
use crate::bus::{MmioDevice, MmioError, MmioReadResult, MmioWriteResult};
use crate::bytes::{self, push_all, read_le32, zeros};
use crate::dirty::SoftwareDirtyBitmap;
use crate::guest_memory;
use crate::persist::Persist;
use crate::rate_limit::{self, charge, Buckets, RateLimiter};
use crate::virtio::buffers::{self, descs_len, read_descs, write_descs, MemState};
use crate::virtio::queue_state::{
    self, cleared_queues, configure, copy_queues, is_queue_reg, read_queue_register,
    restore_processor, save_processor, write_queue_register, QueueState,
};
use crate::virtio::regs::{reg, MAGIC};
use crate::virtio::transport_regs::{self, TransportRegs, ALL_FEATURES, VIRTIO_MMIO_INT_VRING};
use crate::virtio::vqueue::{
    self, ChainView, DescriptorChain, Pass, PassState, QueueConfig, VirtQueueProcessor,
    VirtQueueProcessorState, MAX_QUEUE_SIZE,
};
use vm_memory::GuestMemoryMmap;
use vstd::prelude::*;
use vstd::slice::slice_subrange;

pub mod laws;
pub mod net_features;
pub mod tap;
pub mod traffic_laws;

pub use tap::Tap;

use tap::SentFrame;

verus! {

/// virtio-net header prepended to every packet (`struct virtio_net_hdr_v1`, virtio 1.x, section
/// 5.1.6). It is 12 bytes whenever VIRTIO_F_VERSION_1 is negotiated (num_buffers is always
/// present in v1), independent of MRG_RXBUF.
pub const VIRTIO_NET_HDR_LEN: usize = 12;

/// Byte offset of `num_buffers` within `virtio_net_hdr_v1` (last u16).
pub const VIRTIO_NET_HDR_NUM_BUFFERS_OFF: usize = 10;

/// Max Ethernet frame we accept end-to-end (header + 1500 MTU + slack).
pub const MAX_FRAME_BYTES: usize = 1600;

pub const QUEUE_RX: usize = 0;

pub const QUEUE_TX: usize = 1;

/// Snapshot state for virtio-net MMIO negotiation and queue configuration.
#[derive(Debug, Clone, PartialEq, Eq)]
pub struct VirtioNetMmioState {
    pub status: u32,
    pub queue_sel: u32,
    pub host_features_sel: u32,
    pub guest_features_sel: u32,
    pub guest_features: u32,
    pub queues: Vec<QueueState>,
    pub activated: bool,
    pub interrupt_status: u32,
    pub rx_processor: Option<VirtQueueProcessorState>,
    pub tx_processor: Option<VirtQueueProcessorState>,
}

/// The virtio-mmio transport for a tap-backed NIC.
pub struct VirtioNetMmio<TAP> {
    pub irq: u32,
    pub device_id: u32,
    pub vendor_id: u32,
    pub version: u32,
    /// Locally-administered unicast MAC exposed to the guest via CONFIG space.
    pub mac: [u8; 6],
    /// Host-features bitmap (low 32 bits). Driver reads with HOST_FEATURES_SEL=0.
    pub features: u32,
    pub regs: TransportRegs,
    /// Per-queue config: index 0 = RX, index 1 = TX.
    pub queues: Vec<QueueState>,
    pub guest_mem: Option<GuestMemoryMmap>,
    pub host_dirty: Option<SoftwareDirtyBitmap>,
    /// Persistent virtqueue walkers, one per queue.
    pub rx_processor: Option<VirtQueueProcessor>,
    pub tx_processor: Option<VirtQueueProcessor>,
    /// Optional per-device token bucket for packets/sec and bytes/sec caps.
    pub rate_limiter: Option<RateLimiter>,
    /// The host's tap, once it is there.
    pub tap: Option<Tap<TAP>>,
    /// Interrupts that the guest is still to be sent.
    pub pending_irqs: u64,
    /// Diagnostic counters, read post-boot to verify driver bring-up.
    pub status_writes: u64,
    pub notify_count: u64,
    pub tx_packets: u64,
    pub rx_packets: u64,
    pub tx_bytes: u64,
    pub rx_bytes: u64,
}

/// The state of a [`VirtioNetMmio`].
#[verifier::ext_equal]
pub struct NetMmioView {
    pub irq: u32,
    pub device_id: u32,
    pub vendor_id: u32,
    pub version: u32,
    pub mac: Seq<u8>,
    pub features: u32,
    pub regs: TransportRegs,
    pub queues: Seq<QueueState>,
    pub ram: Option<Map<int, u8>>,
    pub dirty: Option<Seq<(u64, u64)>>,
    pub rx_processor: Option<VirtQueueProcessor>,
    pub tx_processor: Option<VirtQueueProcessor>,
    pub limiter: Option<Buckets>,
    /// The frames that were handed to the tap, oldest first, once there is one.
    pub tap: Option<Seq<SentFrame>>,
    pub pending_irqs: u64,
    pub status_writes: u64,
    pub notify_count: u64,
    pub tx_packets: u64,
    pub rx_packets: u64,
    pub tx_bytes: u64,
    pub rx_bytes: u64,
}

impl<TAP> View for VirtioNetMmio<TAP> {
    type V = NetMmioView;

    open spec fn view(&self) -> NetMmioView {
        NetMmioView {
            irq: self.irq,
            device_id: self.device_id,
            vendor_id: self.vendor_id,
            version: self.version,
            mac: self.mac@,
            features: self.features,
            regs: self.regs,
            queues: self.queues@,
            ram: match self.guest_mem {
                Some(m) => Some(guest_memory::guest_bytes(m)),
                None => None,
            },
            dirty: match self.host_dirty {
                Some(d) => Some(d@),
                None => None,
            },
            rx_processor: self.rx_processor,
            tx_processor: self.tx_processor,
            limiter: rate_limit::limiter_view(self.rate_limiter),
            tap: tap_log(self.tap),
            pending_irqs: self.pending_irqs,
            status_writes: self.status_writes,
            notify_count: self.notify_count,
            tx_packets: self.tx_packets,
            rx_packets: self.rx_packets,
            tx_bytes: self.tx_bytes,
            rx_bytes: self.rx_bytes,
        }
    }
}

/// The record of the tap, if there is one.
pub open spec fn tap_log<TAP>(tap: Option<Tap<TAP>>) -> Option<Seq<SentFrame>> {
    match tap {
        Some(t) => Some(t@),
        None => None,
    }
}

/// What the device works on while it sends packets.
#[verifier::ext_equal]
pub struct TxWork {
    pub limiter: Option<Buckets>,
    pub tap: Option<Seq<SentFrame>>,
    pub packets: u64,
    pub bytes: u64,
    pub sent: nat,
}

impl TxWork {
    /// The work after `frame` was handed to the tap and the write returned `rc`: it counts as sent
    /// if any byte of it was.
    pub open spec fn handed(self, frame: Seq<u8>, rc: i64) -> TxWork {
        let handed = TxWork { tap: Some(self.tap->0.push(SentFrame { frame, rc })), ..self };
        if rc > 0 {
            TxWork {
                packets: transport_regs::counted(self.packets),
                bytes: transport_regs::counted_by(self.bytes, rc as u64),
                sent: self.sent + 1,
                ..handed
            }
        } else {
            handed
        }
    }
}

/// How a chain of the TX queue may be taken up. A frame that is too long, or that holds no more
/// than the header, is dropped. Any other is charged to the limiter, which may leave it in
/// flight, and goes to the tap without its header.
pub open spec fn tx_step() -> vqueue::ChainStep<TxWork> {
    |w: TxWork, m: MemState, chain: ChainView, w2: TxWork, m2: MemState, answer: Option<u32>|
        tx_served(w, buffers::gather(m.ram, chain.readable), w2, answer) && m2 == m
}

/// How the frame `data` with its header may be taken up.
pub open spec fn tx_served(
    w: TxWork,
    data: Seq<u8>,
    w2: TxWork,
    answer: Option<u32>,
) -> bool {
    if data.len() > MAX_FRAME_BYTES || data.len() <= VIRTIO_NET_HDR_LEN {
        w2 == w && answer == Some(0u32)
    } else {
        exists|l: Option<Buckets>, ok: bool|
            #[trigger] rate_limit::limiter_charges(w.limiter, (data.len() - 12) as u64, l, ok)
                && if ok {
                &&& answer == Some(0u32)
                &&& tap_takes(
                    data.subrange(12, data.len() as int),
                    TxWork { limiter: l, ..w },
                    w2,
                )
            } else {
                answer is None && w2 == TxWork { limiter: l, ..w }
            }
    }
}

/// Sending `packet` may turn `w` into `w2`. Without a tap it goes nowhere.
pub open spec fn tap_takes(packet: Seq<u8>, w: TxWork, w2: TxWork) -> bool {
    match w.tap {
        None => w2 == w,
        Some(_) => exists|rc: i64| w2 == #[trigger] w.handed(packet, rc),
    }
}

/// What the device works on while it delivers a packet.
#[verifier::ext_equal]
pub struct RxWork {
    pub limiter: Option<Buckets>,
    pub packets: u64,
    pub bytes: u64,
    pub delivered: bool,
}

/// The header in front of a delivered packet: all zero but for one buffer.
pub open spec fn rx_header() -> Seq<u8> {
    seq![0u8, 0, 0, 0, 0, 0, 0, 0, 0, 0, 1, 0]
}

/// How a chain of the RX queue may be taken up: the first chain with room for header and packet
/// gets them, if the limiter allows it; chains without room go back empty, and later chains stay
/// in flight.
pub open spec fn rx_step(packet: Seq<u8>) -> vqueue::ChainStep<RxWork> {
    |w: RxWork, m: MemState, chain: ChainView, w2: RxWork, m2: MemState, answer: Option<u32>|
        rx_served(packet, w, m, chain.writable, w2, m2, answer)
}

/// How the writable buffers of a chain may be taken up for `packet`.
pub open spec fn rx_served(
    packet: Seq<u8>,
    w: RxWork,
    m: MemState,
    writable: Seq<(u64, u32)>,
    w2: RxWork,
    m2: MemState,
    answer: Option<u32>,
) -> bool {
    if w.delivered {
        w2 == w && m2 == m && answer is None
    } else if buffers::total_len(writable) < packet.len() + 12 {
        w2 == w && m2 == m && answer == Some(0u32)
    } else {
        exists|l: Option<Buckets>, ok: bool|
            #[trigger] rate_limit::limiter_charges(w.limiter, packet.len() as u64, l, ok) && if ok {
                &&& answer == Some((packet.len() + 12) as u32)
                &&& m2 == buffers::scatter(m, writable, rx_header() + packet)
                &&& w2 == RxWork {
                    limiter: l,
                    packets: transport_regs::counted(w.packets),
                    bytes: transport_regs::counted_by(w.bytes, packet.len() as u64),
                    delivered: true,
                }
            } else {
                answer is None && m2 == m && w2 == RxWork { limiter: l, ..w }
            }
    }
}

/// Both taps write through the same function, or there is none.
pub open spec fn same_writer<TAP>(a: Option<Tap<TAP>>, b: Option<Tap<TAP>>) -> bool {
    &&& a is Some == b is Some
    &&& a is Some ==> a->0.writer() == b->0.writer()
}

impl NetMmioView {
    /// There is memory, and queue `i` is ready with a valid size.
    pub open spec fn can_process(self, i: int) -> bool {
        &&& self.ram is Some
        &&& i < self.queues.len()
        &&& self.queues[i].ready
        &&& self.queues[i].sized()
    }

    pub open spec fn mem(self) -> MemState {
        MemState { ram: self.ram->0, marks: queue_state::recorded(self.dirty) }
    }

    /// The device with memory in state `m`.
    pub open spec fn with_mem(self, m: MemState) -> NetMmioView {
        NetMmioView {
            ram: Some(m.ram),
            dirty: match self.dirty {
                Some(_) => Some(m.marks),
                None => None,
            },
            ..self
        }
    }

    /// The device after it raised an interrupt, if `raised`.
    pub open spec fn interrupted(self, raised: bool) -> NetMmioView {
        if raised {
            NetMmioView {
                regs: self.regs.interrupted(VIRTIO_MMIO_INT_VRING),
                pending_irqs: transport_regs::counted(self.pending_irqs),
                ..self
            }
        } else {
            self
        }
    }

    /// The work with which a TX pass starts.
    pub open spec fn tx_work(self) -> TxWork {
        TxWork {
            limiter: self.limiter,
            tap: self.tap,
            packets: self.tx_packets,
            bytes: self.tx_bytes,
            sent: 0,
        }
    }

    /// The state in which a TX pass starts.
    pub open spec fn tx_start(self) -> Pass<TxWork> {
        Pass {
            pass: PassState::start(queue_state::configured(self.tx_processor, self.queues[1]), self.mem()),
            work: self.tx_work(),
        }
    }

    /// The device after a TX pass that ended in `w`.
    pub open spec fn tx_finished(self, w: Pass<TxWork>) -> NetMmioView {
        let config = self.queues[1].config();
        NetMmioView {
            tx_processor: Some(
                VirtQueueProcessor {
                    config,
                    last_avail_idx: w.pass.avail,
                    last_used_idx: w.pass.used,
                },
            ),
            limiter: w.work.limiter,
            tap: w.work.tap,
            tx_packets: w.work.packets,
            tx_bytes: w.work.bytes,
            ..self
        }.with_mem(vqueue::used_idx_stored(w.pass.mem, config, w.pass.used)).interrupted(
            w.pass.done > 0,
        )
    }

    /// The state in which an RX pass starts.
    pub open spec fn rx_start(self) -> Pass<RxWork> {
        Pass {
            pass: PassState::start(queue_state::configured(self.rx_processor, self.queues[0]), self.mem()),
            work: RxWork {
                limiter: self.limiter,
                packets: self.rx_packets,
                bytes: self.rx_bytes,
                delivered: false,
            },
        }
    }

    /// The device after an RX pass that ended in `w`.
    pub open spec fn rx_finished(self, w: Pass<RxWork>) -> NetMmioView {
        let config = self.queues[0].config();
        NetMmioView {
            rx_processor: Some(
                VirtQueueProcessor {
                    config,
                    last_avail_idx: w.pass.avail,
                    last_used_idx: w.pass.used,
                },
            ),
            limiter: w.work.limiter,
            rx_packets: w.work.packets,
            rx_bytes: w.work.bytes,
            ..self
        }.with_mem(vqueue::used_idx_stored(w.pass.mem, config, w.pass.used)).interrupted(
            w.work.delivered,
        )
    }

    /// The device after a write to a register other than QUEUE_NOTIFY.
    pub open spec fn written(self, off: u64, val: u32) -> NetMmioView {
        if off == reg::STATUS {
            NetMmioView {
                status_writes: transport_regs::counted(self.status_writes),
                regs: self.regs.with_status(val),
                ..self
            }
        } else if queue_state::is_queue_register(off) {
            NetMmioView {
                queues: queue_state::queues_written(self.queues, self.regs.queue_sel, off, val),
                ..self
            }
        } else if off == reg::GUEST_FEATURES && self.regs.guest_features_sel != 0 {
            self
        } else {
            NetMmioView { regs: self.regs.written(off, val, ALL_FEATURES, ALL_FEATURES), ..self }
        }
    }

    /// The `len` bytes of the MAC from `at` on, up to four and up to its end, as an integer.
    pub open spec fn config_read(self, at: int, len: int) -> u32 {
        bytes::le32_at(
            Seq::new(
                4,
                |k: int|
                    if k < len && at + k < 6 {
                        self.mac[at + k]
                    } else {
                        0u8
                    },
            ),
            0,
        ) as u32
    }

    /// What a read of `len` bytes at `off` gives.
    pub open spec fn register(self, off: u64, len: u8) -> u32 {
        if off == reg::MAGIC_VALUE {
            MAGIC
        } else if off == reg::VERSION {
            self.version
        } else if off == reg::DEVICE_ID {
            self.device_id
        } else if off == reg::VENDOR_ID {
            self.vendor_id
        } else if off == reg::HOST_FEATURES {
            if self.regs.host_features_sel == 0 {
                self.features
            } else {
                1
            }
        } else if off == reg::QUEUE_NUM_MAX {
            MAX_QUEUE_SIZE as u32
        } else if off == reg::STATUS {
            self.regs.status
        } else if off == reg::INTERRUPT_STATUS {
            self.regs.interrupt_status
        } else if queue_state::is_queue_register(off) {
            queue_state::queues_register(self.queues, self.regs.queue_sel, off)
        } else if reg::CONFIG <= off < reg::CONFIG + 6 {
            self.config_read(off - reg::CONFIG, len as int)
        } else {
            0
        }
    }

    /// The device after it took back what `saved` saved.
    pub open spec fn restored(self, saved: NetSaved) -> NetMmioView {
        NetMmioView {
            regs: TransportRegs {
                guest_features_high: self.regs.guest_features_high,
                ..saved.regs
            },
            queues: saved.queues,
            rx_processor: queue_state::restored_processor(saved.queues, 0, saved.rx_processor),
            tx_processor: queue_state::restored_processor(saved.queues, 1, saved.tx_processor),
            ..self
        }
    }

    /// What the device saves.
    pub open spec fn saved(self) -> NetSaved {
        NetSaved {
            regs: TransportRegs { guest_features_high: 0, ..self.regs },
            queues: self.queues,
            rx_processor: queue_state::saved_processor(self.rx_processor),
            tx_processor: queue_state::saved_processor(self.tx_processor),
        }
    }
}

/// What a [`VirtioNetMmioState`] holds.
#[verifier::ext_equal]
pub struct NetSaved {
    pub regs: TransportRegs,
    pub queues: Seq<QueueState>,
    pub rx_processor: Option<VirtQueueProcessorState>,
    pub tx_processor: Option<VirtQueueProcessorState>,
}

impl View for VirtioNetMmioState {
    type V = NetSaved;

    open spec fn view(&self) -> NetSaved {
        NetSaved {
            regs: TransportRegs {
                status: self.status,
                queue_sel: self.queue_sel,
                host_features_sel: self.host_features_sel,
                guest_features_sel: self.guest_features_sel,
                guest_features_low: self.guest_features,
                guest_features_high: 0,
                activated: self.activated,
                interrupt_status: self.interrupt_status,
            },
            queues: self.queues@,
            rx_processor: self.rx_processor,
            tx_processor: self.tx_processor,
        }
    }
}

/// A device takes back what it saved: every register, every queue, and its place in the rings.
pub proof fn law_net_save_restore(a: NetMmioView, b: NetMmioView)
    ensures
        b.restored(a.saved()).saved() == a.saved(),
        b.restored(a.saved()).queues == a.queues,
{
}

/// How working through the TX queue may turn the device from `s` into `t`, with `sent` packets
/// written to the tap.
pub open spec fn tx_drained(s: NetMmioView, t: NetMmioView, sent: nat) -> bool {
    if !s.can_process(1) {
        t == s && sent == 0
    } else if !vqueue::queue_usable(s.ram->0, s.queues[1].config()) {
        sent == 0 && t == NetMmioView {
            tx_processor: Some(queue_state::configured(s.tx_processor, s.queues[1])),
            ..s
        }
    } else {
        exists|w: Pass<TxWork>|
            #[trigger] vqueue::device_pass(
                tx_step(),
                s.queues[1].config(),
                vqueue::avail_ring_idx(s.ram->0, s.queues[1].config()),
                s.tx_start(),
                w,
            ) && t == s.tx_finished(w) && sent == w.work.sent
    }
}

/// How an attempt to deliver `packet` may turn the device from `s` into `t`, and whether a chain
/// was consumed by it.
pub open spec fn rx_injected(
    packet: Seq<u8>,
    s: NetMmioView,
    t: NetMmioView,
    consumed: bool,
) -> bool {
    if packet.len() + 12 > MAX_FRAME_BYTES || !s.can_process(0) {
        t == s && !consumed
    } else if !vqueue::queue_usable(s.ram->0, s.queues[0].config()) {
        !consumed && t == NetMmioView {
            rx_processor: Some(queue_state::configured(s.rx_processor, s.queues[0])),
            ..s
        }
    } else {
        exists|w: Pass<RxWork>|
            #[trigger] vqueue::device_pass(
                rx_step(packet),
                s.queues[0].config(),
                vqueue::avail_ring_idx(s.ram->0, s.queues[0].config()),
                s.rx_start(),
                w,
            ) && t == s.rx_finished(w) && consumed == (w.pass.done > 0)
    }
}

impl<TAP: Fn(&[u8]) -> i64> VirtioNetMmio<TAP> {
    /// The tap, if there is one, takes any frame.
    pub open spec fn wf(&self) -> bool {
        self.tap matches Some(t) ==> t.wf()
    }

    /// Both devices write to the same tap, or both have none.
    pub open spec fn same_tap(&self, other: &Self) -> bool {
        same_writer(self.tap, other.tap)
    }

    pub fn new(irq: u32, mac: [u8; 6]) -> (d: Self)
        ensures
            d.wf(),
            d.tap is None,
            d@ == (NetMmioView {
                irq,
                device_id: 1,
                vendor_id: 0,
                version: 2,
                mac: mac@,
                features: net_features::MAC,
                regs: TransportRegs::cleared(),
                queues: seq![QueueState::cleared(), QueueState::cleared()],
                ram: None,
                dirty: None,
                rx_processor: None,
                tx_processor: None,
                limiter: None,
                tap: None,
                pending_irqs: 0,
                status_writes: 0,
                notify_count: 0,
                tx_packets: 0,
                rx_packets: 0,
                tx_bytes: 0,
                rx_bytes: 0,
            }),
    {
        let queues = cleared_queues(2);
        assert(queues@ =~= seq![QueueState::cleared(), QueueState::cleared()]);
        VirtioNetMmio {
            irq,
            device_id: 1,
            vendor_id: 0,
            version: 2,
            mac,
            features: net_features::MAC,
            regs: TransportRegs::new(),
            queues,
            guest_mem: None,
            host_dirty: None,
            rx_processor: None,
            tx_processor: None,
            rate_limiter: None,
            tap: None,
            pending_irqs: 0,
            status_writes: 0,
            notify_count: 0,
            tx_packets: 0,
            rx_packets: 0,
            tx_bytes: 0,
            rx_bytes: 0,
        }
    }

    pub fn current_status(&self) -> (st: u32)
        ensures
            st == self.regs.status,
    {
        self.regs.status
    }

    pub fn is_activated(&self) -> (r: bool)
        ensures
            r == self.regs.activated,
    {
        self.regs.activated
    }

    /// Takes the interrupts that are to be sent to the guest.
    pub fn take_irqs(&mut self) -> (n: u64)
        ensures
            n == old(self).pending_irqs,
            final(self).tap == old(self).tap,
            final(self)@ == (NetMmioView { pending_irqs: 0, ..old(self)@ }),
    {
        let n: u64 = self.pending_irqs;
        self.pending_irqs = 0;
        n
    }

    /// Set the guest memory.
    pub fn set_guest_memory(&mut self, mem: GuestMemoryMmap)
        ensures
            final(self).tap == old(self).tap,
            final(self)@ == (NetMmioView { ram: Some(guest_memory::guest_bytes(mem)), ..old(self)@ }),
    {
        self.guest_mem = Some(mem);
    }

    /// Record what the device writes to guest memory in `dirty`.
    pub fn set_guest_dirty_tracker(&mut self, dirty: SoftwareDirtyBitmap)
        ensures
            final(self).tap == old(self).tap,
            final(self)@ == (NetMmioView { dirty: Some(dirty@), ..old(self)@ }),
    {
        self.host_dirty = Some(dirty);
    }

    /// Install a per-device rate limiter. Leaving it unset keeps I/O unlimited.
    pub fn set_rate_limiter(&mut self, rl: RateLimiter)
        ensures
            final(self).tap == old(self).tap,
            final(self)@ == (NetMmioView { limiter: Some(rl@), ..old(self)@ }),
    {
        self.rate_limiter = Some(rl);
    }

    /// Hand the transport the tap: the function that writes one frame to it.
    pub fn set_tap_fd(&mut self, tap: TAP)
        requires
            forall|p: &[u8]| call_requires(tap, (p,)),
        ensures
            final(self).wf(),
            final(self).tap matches Some(t) && t.writer() == tap,
            final(self)@ == (NetMmioView { tap: Some(Seq::empty()), ..old(self)@ }),
    {
        self.tap = Some(Tap::new(tap));
    }

    /// Takes up one chain of the TX queue; returns the length to complete it with.
    fn send_chain(
        mem: &GuestMemoryMmap,
        tap: &mut Option<Tap<TAP>>,
        limiter: &mut Option<RateLimiter>,
        packets: &mut u64,
        bytes: &mut u64,
        sent: &mut usize,
        chain: &DescriptorChain,
    ) -> (answer: Option<u32>)
        requires
            *old(sent) < usize::MAX,
            *old(tap) matches Some(t) ==> t.wf(),
            buffers::all_mapped(guest_memory::guest_bytes(*mem), chain.readable@),
            buffers::total_len(chain.readable@) <= vqueue::MAX_CHAIN_BYTES,
        ensures
            *old(sent) <= *final(sent) <= *old(sent) + 1,
            answer is None ==> *final(sent) == *old(sent),
            *final(tap) matches Some(t) ==> t.wf(),
            same_writer(*final(tap), *old(tap)),
            tx_served(
                TxWork {
                    limiter: rate_limit::limiter_view(*old(limiter)),
                    tap: tap_log(*old(tap)),
                    packets: *old(packets),
                    bytes: *old(bytes),
                    sent: *old(sent) as nat,
                },
                buffers::gather(guest_memory::guest_bytes(*mem), chain.readable@),
                TxWork {
                    limiter: rate_limit::limiter_view(*final(limiter)),
                    tap: tap_log(*final(tap)),
                    packets: *final(packets),
                    bytes: *final(bytes),
                    sent: *final(sent) as nat,
                },
                answer,
            ),
    {
        let ghost ram = guest_memory::guest_bytes(*mem);
        let n: usize = chain.readable.len();
        assert(chain.readable@.take(n as int) =~= chain.readable@);
        proof {
            buffers::lemma_gather_len(ram, chain.readable@);
        }
        let total: usize = descs_len(chain.readable.as_slice(), n);
        if total > MAX_FRAME_BYTES || total <= VIRTIO_NET_HDR_LEN {
            return Some(0);
        }
        let data = match read_descs(mem, chain.readable.as_slice(), n) {
            Some(data) => data,
            None => Vec::new(),
        };
        assert(data@ == buffers::gather(ram, chain.readable@));
        let cost: u64 = (data.len() - 12) as u64;
        let ghost l0 = rate_limit::limiter_view(*limiter);
        let allowed = charge(limiter, cost);
        let ghost l1 = rate_limit::limiter_view(*limiter);
        assert(rate_limit::limiter_charges(l0, (data@.len() - 12) as u64, l1, allowed));
        if !allowed {
            return None;
        }
        let packet = slice_subrange(data.as_slice(), VIRTIO_NET_HDR_LEN, data.len());
        assert(packet@ =~= data@.subrange(12, data@.len() as int));
        let ghost charged = TxWork {
            limiter: l1,
            tap: tap_log(*tap),
            packets: *packets,
            bytes: *bytes,
            sent: *sent as nat,
        };
        match tap {
            None => Some(0),
            Some(t) => {
                let rc: i64 = t.send(packet);
                let ghost handed = charged.handed(data@.subrange(12, data@.len() as int), rc);
                if rc > 0 {
                    *packets = packets.wrapping_add(1);
                    *bytes = bytes.wrapping_add(rc as u64);
                    *sent = *sent + 1;
                }
                Some(0)
            },
        }
    }

    /// Works through the TX queue; returns how many chains were completed, and how many packets
    /// were sent.
    fn drain_tx(
        processor: &mut VirtQueueProcessor,
        mem: &mut GuestMemoryMmap,
        dirty: &mut SoftwareDirtyBitmap,
        tap: &mut Option<Tap<TAP>>,
        limiter: &mut Option<RateLimiter>,
        packets: &mut u64,
        bytes: &mut u64,
    ) -> (r: (usize, usize))
        requires
            *old(tap) matches Some(t) ==> t.wf(),
        ensures
            *final(tap) matches Some(t) ==> t.wf(),
            same_writer(*final(tap), *old(tap)),
            final(processor).config == old(processor).config,
            !vqueue::queue_usable(guest_memory::guest_bytes(*old(mem)), old(processor).config)
                ==> {
                &&& r == (0usize, 0usize)
                &&& *final(processor) == *old(processor)
                &&& buffers::mem_state(*final(mem), *final(dirty)) == buffers::mem_state(
                    *old(mem),
                    *old(dirty),
                )
                &&& *final(limiter) == *old(limiter)
                &&& tap_log(*final(tap)) == tap_log(*old(tap))
                &&& *final(packets) == *old(packets)
                &&& *final(bytes) == *old(bytes)
            },
            vqueue::queue_usable(guest_memory::guest_bytes(*old(mem)), old(processor).config)
                ==> exists|w: Pass<TxWork>|
                {
                    &&& #[trigger] vqueue::device_pass(
                        tx_step(),
                        old(processor).config,
                        vqueue::avail_ring_idx(
                            guest_memory::guest_bytes(*old(mem)),
                            old(processor).config,
                        ),
                        Pass {
                            pass: PassState::start(
                                *old(processor),
                                buffers::mem_state(*old(mem), *old(dirty)),
                            ),
                            work: TxWork {
                                limiter: rate_limit::limiter_view(*old(limiter)),
                                tap: tap_log(*old(tap)),
                                packets: *old(packets),
                                bytes: *old(bytes),
                                sent: 0,
                            },
                        },
                        w,
                    )
                    &&& final(processor).last_avail_idx == w.pass.avail
                    &&& final(processor).last_used_idx == w.pass.used
                    &&& r.0 == w.pass.done
                    &&& r.1 == w.work.sent
                    &&& buffers::mem_state(*final(mem), *final(dirty)) == vqueue::used_idx_stored(
                        w.pass.mem,
                        old(processor).config,
                        w.pass.used,
                    )
                    &&& rate_limit::limiter_view(*final(limiter)) == w.work.limiter
                    &&& tap_log(*final(tap)) == w.work.tap
                    &&& *final(packets) == w.work.packets
                    &&& *final(bytes) == w.work.bytes
                },
    {
        let target: u16 = match processor.available(mem) {
            Some(idx) => idx,
            None => {
                return (0, 0);
            },
        };
        let ghost config = processor.config;
        let ghost step = tx_step();
        let ghost s0 = Pass {
            pass: PassState::start(*processor, buffers::mem_state(*mem, *dirty)),
            work: TxWork {
                limiter: rate_limit::limiter_view(*limiter),
                tap: tap_log(*tap),
                packets: *packets,
                bytes: *bytes,
                sent: 0,
            },
        };
        let ghost mut s = s0;
        let mut done: usize = 0;
        let mut sent: usize = 0;
        loop
            invariant_except_break
                done + vqueue::idx_distance(s.pass.avail, target) <= 0xffff,
                forall|t: Pass<TxWork>|
                    #[trigger] vqueue::device_pass(step, config, target, s, t)
                        ==> vqueue::device_pass(step, config, target, s0, t),
            invariant
                *tap matches Some(t) ==> t.wf(),
                same_writer(*tap, *old(tap)),
                step == tx_step(),
                processor.config == config,
                vqueue::queue_usable(guest_memory::guest_bytes(*mem), config),
                s.pass.avail == processor.last_avail_idx,
                s.pass.used == processor.last_used_idx,
                s.pass.mem == buffers::mem_state(*mem, *dirty),
                s.pass.done == done,
                s.work == (TxWork {
                    limiter: rate_limit::limiter_view(*limiter),
                    tap: tap_log(*tap),
                    packets: *packets,
                    bytes: *bytes,
                    sent: sent as nat,
                }),
                sent <= done,
            ensures
                vqueue::device_pass(step, config, target, s0, s),
            decreases vqueue::idx_distance(processor.last_avail_idx, target),
        {
            let ghost k = s.skipped(config, target);
            proof {
                vqueue::lemma_skip_rejected(s.pass.mem.ram, config, s.pass.avail, target);
            }
            match processor.next_chain(mem, target) {
                None => {
                    assert(vqueue::device_pass(step, config, target, s, k));
                    proof {
                        s = k;
                    }
                    break;
                },
                Some((head, chain)) => {
                    let ghost m = k.pass.mem;
                    proof {
                        vqueue::lemma_chain_buffers(m.ram, config, head);
                    }
                    let answer = Self::send_chain(
                        mem,
                        tap,
                        limiter,
                        packets,
                        bytes,
                        &mut sent,
                        &chain,
                    );
                    let ghost w = TxWork {
                        limiter: rate_limit::limiter_view(*limiter),
                        tap: tap_log(*tap),
                        packets: *packets,
                        bytes: *bytes,
                        sent: sent as nat,
                    };
                    proof {
                        assert(tx_served(
                            k.work,
                            buffers::gather(m.ram, chain@.readable),
                            w,
                            answer,
                        ));
                        assert(step(k.work, m, chain@, w, m, answer));
                    }
                    match answer {
                        None => {
                            assert(vqueue::device_pass(step, config, target, s, k.worked(w, m)));
                            proof {
                                s = k.worked(w, m);
                            }
                            break;
                        },
                        Some(len) => {
                            let ghost mid = guest_memory::guest_bytes(*mem);
                            processor.complete_chain(mem, dirty, head, len);
                            proof {
                                vqueue::lemma_usable_dom(
                                    mid,
                                    guest_memory::guest_bytes(*mem),
                                    config,
                                );
                                let next = k.worked(w, m).completed(config, head, len);
                                assert forall|t: Pass<TxWork>|
                                    #[trigger] vqueue::device_pass(
                                        step,
                                        config,
                                        target,
                                        next,
                                        t,
                                    ) implies vqueue::device_pass(step, config, target, s0, t) by {
                                    assert(vqueue::device_pass(step, config, target, s, t));
                                }
                                s = next;
                            }
                            done = done + 1;
                        },
                    }
                },
            }
        }
        processor.publish_used(mem, dirty);
        (done, sent)
    }

    /// Drain the TX queue. For each chain (all readable: virtio_net_hdr + packet bytes) assemble
    /// the contiguous packet and write it to the tap. Called either on QUEUE_NOTIFY or from the
    /// I/O loop when a TX kick fires. Returns how many packets were sent.
    pub fn process_tx_queue(&mut self) -> (sent: usize)
        requires
            old(self).wf(),
        ensures
            final(self).wf(),
            final(self).same_tap(old(self)),
            tx_drained(old(self)@, final(self)@, sent as nat),
    {
        if self.queues.len() <= QUEUE_TX {
            return 0;
        }
        let q = self.queues[QUEUE_TX];
        if !q.ready || !q.valid_size() {
            return 0;
        }
        match self.guest_mem.take() {
            None => 0,
            Some(mem) => {
                let ghost config = q.config();
                let mut mem = mem;
                let mut processor = configure(self.tx_processor.take(), &q);
                let has_tracker = self.host_dirty.is_some();
                let mut dirty = match self.host_dirty.take() {
                    Some(d) => d,
                    None => SoftwareDirtyBitmap::new(),
                };
                let (done, sent) = Self::drain_tx(
                    &mut processor,
                    &mut mem,
                    &mut dirty,
                    &mut self.tap,
                    &mut self.rate_limiter,
                    &mut self.tx_packets,
                    &mut self.tx_bytes,
                );
                self.guest_mem = Some(mem);
                if has_tracker {
                    self.host_dirty = Some(dirty);
                }
                self.tx_processor = Some(processor);
                if done > 0 {
                    self.regs.raise(VIRTIO_MMIO_INT_VRING);
                    self.pending_irqs = self.pending_irqs.wrapping_add(1);
                }
                proof {
                    let s = old(self)@;
                    if vqueue::queue_usable(s.ram->0, config) {
                        let w = choose|w: Pass<TxWork>|
                            {
                                &&& #[trigger] vqueue::device_pass(
                                    tx_step(),
                                    config,
                                    vqueue::avail_ring_idx(s.ram->0, config),
                                    s.tx_start(),
                                    w,
                                )
                                &&& processor.last_avail_idx == w.pass.avail
                                &&& processor.last_used_idx == w.pass.used
                                &&& done == w.pass.done
                                &&& sent == w.work.sent
                                &&& buffers::mem_state(mem, dirty) == vqueue::used_idx_stored(
                                    w.pass.mem,
                                    config,
                                    w.pass.used,
                                )
                                &&& rate_limit::limiter_view(self.rate_limiter) == w.work.limiter
                                &&& tap_log(self.tap) == w.work.tap
                                &&& self.tx_packets == w.work.packets
                                &&& self.tx_bytes == w.work.bytes
                            };
                        assert(self@ =~= s.tx_finished(w));
                    } else {
                        assert(self@ =~= NetMmioView {
                            tx_processor: Some(
                                queue_state::configured(s.tx_processor, s.queues[1]),
                            ),
                            ..s
                        });
                    }
                }
                sent
            },
        }
    }
}

impl<TAP: Fn(&[u8]) -> i64> VirtioNetMmio<TAP> {
    /// Takes up one chain of the RX queue for `packet`; returns the length to complete it with.
    fn fill_chain(
        mem: &mut GuestMemoryMmap,
        dirty: &mut SoftwareDirtyBitmap,
        limiter: &mut Option<RateLimiter>,
        packets: &mut u64,
        bytes: &mut u64,
        delivered: &mut bool,
        packet: &[u8],
        chain: &DescriptorChain,
    ) -> (answer: Option<u32>)
        requires
            packet@.len() + 12 <= MAX_FRAME_BYTES,
            buffers::all_mapped(guest_memory::guest_bytes(*old(mem)), chain.writable@),
            buffers::total_len(chain.writable@) <= vqueue::MAX_CHAIN_BYTES,
        ensures
            guest_memory::guest_bytes(*final(mem)).dom() == guest_memory::guest_bytes(
                *old(mem),
            ).dom(),
            rx_served(
                packet@,
                RxWork {
                    limiter: rate_limit::limiter_view(*old(limiter)),
                    packets: *old(packets),
                    bytes: *old(bytes),
                    delivered: *old(delivered),
                },
                buffers::mem_state(*old(mem), *old(dirty)),
                chain.writable@,
                RxWork {
                    limiter: rate_limit::limiter_view(*final(limiter)),
                    packets: *final(packets),
                    bytes: *final(bytes),
                    delivered: *final(delivered),
                },
                buffers::mem_state(*final(mem), *final(dirty)),
                answer,
            ),
    {
        if *delivered {
            // Only deliver into the first available chain per call.
            return None;
        }
        let need: usize = packet.len() + VIRTIO_NET_HDR_LEN;
        let n: usize = chain.writable.len();
        assert(chain.writable@.take(n as int) =~= chain.writable@);
        let room: usize = descs_len(chain.writable.as_slice(), n);
        if room < need {
            return Some(0);
        }
        let ghost l0 = rate_limit::limiter_view(*limiter);
        let cost: u64 = packet.len() as u64;
        let allowed = charge(limiter, cost);
        let ghost l1 = rate_limit::limiter_view(*limiter);
        assert(rate_limit::limiter_charges(l0, packet@.len() as u64, l1, allowed));
        if !allowed {
            return None;
        }
        // The 12-byte virtio_net_hdr_v1 (zeroed, with num_buffers = 1), then the packet bytes,
        // spanning whatever descriptors are needed.
        let mut to_write: Vec<u8> = zeros(VIRTIO_NET_HDR_NUM_BUFFERS_OFF);
        to_write.push(1);
        to_write.push(0);
        assert(to_write@ =~= rx_header());
        push_all(&mut to_write, packet);
        proof {
            buffers::lemma_scatter_dom(
                buffers::mem_state(*mem, *dirty),
                chain.writable@,
                to_write@,
            );
        }
        let _written: usize = write_descs(
            mem,
            dirty,
            chain.writable.as_slice(),
            n,
            to_write.as_slice(),
        );
        *delivered = true;
        *packets = packets.wrapping_add(1);
        *bytes = bytes.wrapping_add(cost);
        Some(need as u32)
    }

    /// Works through the RX queue with `packet`; returns whether a chain was consumed, and whether
    /// the packet was delivered.
    fn drain_rx(
        processor: &mut VirtQueueProcessor,
        mem: &mut GuestMemoryMmap,
        dirty: &mut SoftwareDirtyBitmap,
        limiter: &mut Option<RateLimiter>,
        packets: &mut u64,
        bytes: &mut u64,
        packet: &[u8],
    ) -> (r: (bool, bool))
        requires
            packet@.len() + 12 <= MAX_FRAME_BYTES,
        ensures
            final(processor).config == old(processor).config,
            !vqueue::queue_usable(guest_memory::guest_bytes(*old(mem)), old(processor).config)
                ==> {
                &&& r == (false, false)
                &&& *final(processor) == *old(processor)
                &&& buffers::mem_state(*final(mem), *final(dirty)) == buffers::mem_state(
                    *old(mem),
                    *old(dirty),
                )
                &&& *final(limiter) == *old(limiter)
                &&& *final(packets) == *old(packets)
                &&& *final(bytes) == *old(bytes)
            },
            vqueue::queue_usable(guest_memory::guest_bytes(*old(mem)), old(processor).config)
                ==> exists|w: Pass<RxWork>|
                {
                    &&& #[trigger] vqueue::device_pass(
                        rx_step(packet@),
                        old(processor).config,
                        vqueue::avail_ring_idx(
                            guest_memory::guest_bytes(*old(mem)),
                            old(processor).config,
                        ),
                        Pass {
                            pass: PassState::start(
                                *old(processor),
                                buffers::mem_state(*old(mem), *old(dirty)),
                            ),
                            work: RxWork {
                                limiter: rate_limit::limiter_view(*old(limiter)),
                                packets: *old(packets),
                                bytes: *old(bytes),
                                delivered: false,
                            },
                        },
                        w,
                    )
                    &&& final(processor).last_avail_idx == w.pass.avail
                    &&& final(processor).last_used_idx == w.pass.used
                    &&& r == (w.pass.done > 0, w.work.delivered)
                    &&& buffers::mem_state(*final(mem), *final(dirty)) == vqueue::used_idx_stored(
                        w.pass.mem,
                        old(processor).config,
                        w.pass.used,
                    )
                    &&& rate_limit::limiter_view(*final(limiter)) == w.work.limiter
                    &&& *final(packets) == w.work.packets
                    &&& *final(bytes) == w.work.bytes
                },
    {
        let target: u16 = match processor.available(mem) {
            Some(idx) => idx,
            None => {
                return (false, false);
            },
        };
        let ghost config = processor.config;
        let ghost step = rx_step(packet@);
        let ghost s0 = Pass {
            pass: PassState::start(*processor, buffers::mem_state(*mem, *dirty)),
            work: RxWork {
                limiter: rate_limit::limiter_view(*limiter),
                packets: *packets,
                bytes: *bytes,
                delivered: false,
            },
        };
        let ghost mut s = s0;
        let mut delivered = false;
        let mut consumed = false;
        loop
            invariant_except_break
                forall|t: Pass<RxWork>|
                    #[trigger] vqueue::device_pass(step, config, target, s, t)
                        ==> vqueue::device_pass(step, config, target, s0, t),
            invariant
                packet@.len() + 12 <= MAX_FRAME_BYTES,
                step == rx_step(packet@),
                processor.config == config,
                vqueue::queue_usable(guest_memory::guest_bytes(*mem), config),
                s.pass.avail == processor.last_avail_idx,
                s.pass.used == processor.last_used_idx,
                s.pass.mem == buffers::mem_state(*mem, *dirty),
                consumed == (s.pass.done > 0),
                s.work == (RxWork {
                    limiter: rate_limit::limiter_view(*limiter),
                    packets: *packets,
                    bytes: *bytes,
                    delivered,
                }),
            ensures
                vqueue::device_pass(step, config, target, s0, s),
            decreases vqueue::idx_distance(processor.last_avail_idx, target),
        {
            let ghost k = s.skipped(config, target);
            proof {
                vqueue::lemma_skip_rejected(s.pass.mem.ram, config, s.pass.avail, target);
            }
            match processor.next_chain(mem, target) {
                None => {
                    assert(vqueue::device_pass(step, config, target, s, k));
                    proof {
                        s = k;
                    }
                    break;
                },
                Some((head, chain)) => {
                    let ghost before = guest_memory::guest_bytes(*mem);
                    proof {
                        vqueue::lemma_chain_buffers(before, config, head);
                    }
                    let answer = Self::fill_chain(
                        mem,
                        dirty,
                        limiter,
                        packets,
                        bytes,
                        &mut delivered,
                        packet,
                        &chain,
                    );
                    let ghost m = buffers::mem_state(*mem, *dirty);
                    let ghost w = RxWork {
                        limiter: rate_limit::limiter_view(*limiter),
                        packets: *packets,
                        bytes: *bytes,
                        delivered,
                    };
                    proof {
                        assert(step(k.work, k.pass.mem, chain@, w, m, answer));
                        vqueue::lemma_usable_dom(before, m.ram, config);
                    }
                    match answer {
                        None => {
                            assert(vqueue::device_pass(step, config, target, s, k.worked(w, m)));
                            proof {
                                s = k.worked(w, m);
                            }
                            break;
                        },
                        Some(len) => {
                            processor.complete_chain(mem, dirty, head, len);
                            consumed = true;
                            proof {
                                vqueue::lemma_usable_dom(
                                    m.ram,
                                    guest_memory::guest_bytes(*mem),
                                    config,
                                );
                                let next = k.worked(w, m).completed(config, head, len);
                                assert forall|t: Pass<RxWork>|
                                    #[trigger] vqueue::device_pass(
                                        step,
                                        config,
                                        target,
                                        next,
                                        t,
                                    ) implies vqueue::device_pass(step, config, target, s0, t) by {
                                    assert(vqueue::device_pass(step, config, target, s, t));
                                }
                                s = next;
                            }
                        },
                    }
                },
            }
        }
        processor.publish_used(mem, dirty);
        (consumed, delivered)
    }

    /// Inject a packet received from the host tap into the RX queue. Walks to the first writable
    /// chain with room, lays down a virtio_net_hdr, then the packet bytes. Returns true iff a
    /// chain was consumed: one that is too small for the packet is given back with nothing in
    /// it. If no avail descriptor is ready the packet is dropped (caller should retry later). The
    /// guest is interrupted when the packet was delivered.
    pub fn inject_rx_packet(&mut self, packet: &[u8]) -> (consumed: bool)
        requires
            old(self).wf(),
        ensures
            final(self).wf(),
            final(self).tap == old(self).tap,
            rx_injected(packet@, old(self)@, final(self)@, consumed),
    {
        if packet.len() > MAX_FRAME_BYTES - VIRTIO_NET_HDR_LEN {
            return false;
        }
        if self.queues.len() <= QUEUE_RX {
            return false;
        }
        let q = self.queues[QUEUE_RX];
        if !q.ready || !q.valid_size() {
            return false;
        }
        match self.guest_mem.take() {
            None => false,
            Some(mem) => {
                let ghost config = q.config();
                let mut mem = mem;
                let mut processor = configure(self.rx_processor.take(), &q);
                let has_tracker = self.host_dirty.is_some();
                let mut dirty = match self.host_dirty.take() {
                    Some(d) => d,
                    None => SoftwareDirtyBitmap::new(),
                };
                let (consumed, delivered) = Self::drain_rx(
                    &mut processor,
                    &mut mem,
                    &mut dirty,
                    &mut self.rate_limiter,
                    &mut self.rx_packets,
                    &mut self.rx_bytes,
                    packet,
                );
                self.guest_mem = Some(mem);
                if has_tracker {
                    self.host_dirty = Some(dirty);
                }
                self.rx_processor = Some(processor);
                if delivered {
                    self.regs.raise(VIRTIO_MMIO_INT_VRING);
                    self.pending_irqs = self.pending_irqs.wrapping_add(1);
                }
                proof {
                    let s = old(self)@;
                    if vqueue::queue_usable(s.ram->0, config) {
                        let w = choose|w: Pass<RxWork>|
                            {
                                &&& #[trigger] vqueue::device_pass(
                                    rx_step(packet@),
                                    config,
                                    vqueue::avail_ring_idx(s.ram->0, config),
                                    s.rx_start(),
                                    w,
                                )
                                &&& processor.last_avail_idx == w.pass.avail
                                &&& processor.last_used_idx == w.pass.used
                                &&& consumed == (w.pass.done > 0)
                                &&& delivered == w.work.delivered
                                &&& buffers::mem_state(mem, dirty) == vqueue::used_idx_stored(
                                    w.pass.mem,
                                    config,
                                    w.pass.used,
                                )
                                &&& rate_limit::limiter_view(self.rate_limiter) == w.work.limiter
                                &&& self.rx_packets == w.work.packets
                                &&& self.rx_bytes == w.work.bytes
                            };
                        assert(self@ =~= s.rx_finished(w));
                    } else {
                        assert(self@ =~= NetMmioView {
                            rx_processor: Some(
                                queue_state::configured(s.rx_processor, s.queues[0]),
                            ),
                            ..s
                        });
                    }
                }
                consumed
            },
        }
    }

    /// Read up to 4 bytes of the MAC from device-specific CONFIG space.
    fn read_config(&self, at: usize, len: u8) -> (val: u32)
        requires
            at < 6,
        ensures
            val == self@.config_read(at as int, len as int),
    {
        let mut buf: Vec<u8> = Vec::new();
        let mut k: usize = 0;
        while k < 4
            invariant
                k <= 4,
                at < 6,
                buf@ == Seq::new(
                    k as nat,
                    |k: int|
                        if k < len && at + k < 6 {
                            self@.mac[at + k]
                        } else {
                            0u8
                        },
                ),
            decreases 4 - k,
        {
            let b: u8 = if k < len as usize && at + k < 6 {
                self.mac[at + k]
            } else {
                0
            };
            buf.push(b);
            k += 1;
            assert(buf@ =~= Seq::new(
                k as nat,
                |k: int|
                    if k < len && at + k < 6 {
                        self@.mac[at + k]
                    } else {
                        0u8
                    },
            ));
        }
        read_le32(buf.as_slice(), 0)
    }
}

impl<TAP: Fn(&[u8]) -> i64> Persist for VirtioNetMmio<TAP> {
    type State = VirtioNetMmioState;

    fn save(&self) -> (s: VirtioNetMmioState)
        ensures
            s@ == self@.saved(),
    {
        VirtioNetMmioState {
            status: self.regs.status,
            queue_sel: self.regs.queue_sel,
            host_features_sel: self.regs.host_features_sel,
            guest_features_sel: self.regs.guest_features_sel,
            guest_features: self.regs.guest_features_low,
            queues: copy_queues(&self.queues),
            activated: self.regs.activated,
            interrupt_status: self.regs.interrupt_status,
            rx_processor: save_processor(&self.rx_processor),
            tx_processor: save_processor(&self.tx_processor),
        }
    }

    fn restore(&mut self, state: VirtioNetMmioState)
        ensures
            final(self)@ == old(self)@.restored(state@),
            final(self).tap == old(self).tap,
    {
        self.regs.status = state.status;
        self.regs.queue_sel = state.queue_sel;
        self.regs.host_features_sel = state.host_features_sel;
        self.regs.guest_features_sel = state.guest_features_sel;
        self.regs.guest_features_low = state.guest_features;
        self.regs.activated = state.activated;
        self.regs.interrupt_status = state.interrupt_status;
        self.rx_processor = restore_processor(&state.queues, QUEUE_RX, state.rx_processor);
        self.tx_processor = restore_processor(&state.queues, QUEUE_TX, state.tx_processor);
        self.queues = state.queues;
    }
}

impl<TAP: Fn(&[u8]) -> i64 + Send + Sync> MmioDevice for VirtioNetMmio<TAP> {
    open spec fn reads(&self, off: u64, len: u8, r: MmioReadResult) -> bool {
        r == Ok::<u64, MmioError>(self@.register(off, len) as u64)
    }

    open spec fn writes(
        &self,
        off: u64,
        val: u64,
        len: u8,
        post: &Self,
        r: MmioWriteResult,
    ) -> bool {
        let notified = NetMmioView {
            notify_count: transport_regs::counted(self.notify_count),
            ..self@
        };
        &&& r == Ok::<(), MmioError>(())
        &&& post.same_tap(self)
        &&& if off == reg::QUEUE_NOTIFY {
            if val as u32 == 1 {
                exists|sent: nat| tx_drained(notified, post@, sent)
            } else {
                post@ == notified
            }
        } else {
            post@ == self@.written(off, val as u32)
        }
    }

    open spec fn inv(&self) -> bool {
        self.wf()
    }

    fn mmio_read(&self, off: u64, len: u8) -> (r: MmioReadResult) {
        let val: u32 = if off >= reg::CONFIG && off < reg::CONFIG + 6 {
            self.read_config((off - reg::CONFIG) as usize, len)
        } else if off == reg::MAGIC_VALUE {
            MAGIC
        } else if off == reg::VERSION {
            self.version
        } else if off == reg::DEVICE_ID {
            self.device_id
        } else if off == reg::VENDOR_ID {
            self.vendor_id
        } else if off == reg::HOST_FEATURES {
            if self.regs.host_features_sel == 0 {
                self.features
            } else {
                // VERSION_1 is bit 32: it stands in the high word.
                1
            }
        } else if off == reg::QUEUE_NUM_MAX {
            MAX_QUEUE_SIZE as u32
        } else if off == reg::STATUS {
            self.regs.status
        } else if off == reg::INTERRUPT_STATUS {
            self.regs.interrupt_status
        } else if is_queue_reg(off) {
            read_queue_register(&self.queues, self.regs.queue_sel, off)
        } else {
            0
        };
        Ok(val as u64)
    }

    fn mmio_write(&mut self, off: u64, val: u64, _len: u8) -> (r: MmioWriteResult) {
        let val: u32 = val as u32;
        if off == reg::STATUS {
            self.regs.set_status(val);
            self.status_writes = self.status_writes.wrapping_add(1);
        } else if off == reg::QUEUE_NOTIFY {
            self.notify_count = self.notify_count.wrapping_add(1);
            // `val` is the queue index that was kicked. An RX kick leaves nothing to do: the
            // new descriptors are seen when the next packet is injected.
            if val == 1 {
                let _sent: usize = self.process_tx_queue();
            }
        } else if is_queue_reg(off) {
            write_queue_register(&mut self.queues, self.regs.queue_sel, off, val);
        } else if off == reg::GUEST_FEATURES && self.regs.guest_features_sel != 0 {
        } else {
            self.regs.write(off, val, ALL_FEATURES, ALL_FEATURES);
        }
        Ok(())
    }
}

} // verus!
