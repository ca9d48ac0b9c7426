//! virtio-mmio transport for virtio-blk: register decode, virtqueue processing, and the
//! requests that a QUEUE_NOTIFY makes the backend service.
//!
//! When the guest writes to QUEUE_NOTIFY, the device walks the descriptor ring, extracts each
//! virtio_blk_req, has the backend service it, writes the status byte, and updates the used
//! ring.
use crate::bus::{MmioDevice, MmioError, MmioReadResult, MmioWriteResult};
use crate::bytes::{self, copy_range, push_le32, push_le64, read_le32, zeros};
use crate::dirty::SoftwareDirtyBitmap;
use crate::guest_memory;
use crate::persist::Persist;
use crate::rate_limit::{self, charge, Buckets, RateLimiter};
use crate::virtio::blk::{req_type, status, BlkReqHeader};
use crate::virtio::blk_backend::{self, BackendView, BlkBackend, DiskOp};
use crate::virtio::buffers::{self, descs_len, read_descs, write_descs, write_slice_mem, MemState};
use crate::virtio::queue_state::{
    self, cleared_queues, configure, copy_queues, is_queue_reg, read_queue_register,
    restore_processor, save_processor, write_queue_register, QueueState,
};
use crate::virtio::regs::{reg, MAGIC};
use crate::virtio::transport_regs::{self, TransportRegs, ALL_FEATURES, VIRTIO_MMIO_INT_VRING};
use crate::virtio::vqueue::{
    self, ChainView, DescriptorChain, PassState, QueueConfig, VirtQueueProcessor,
    VirtQueueProcessorState, MAX_QUEUE_SIZE,
};
use vm_memory::GuestMemoryMmap;
use vstd::prelude::*;

pub mod laws;
pub mod status_bits;

verus! {

/// virtio-blk feature bits we advertise (a deliberately minimal set): VIRTIO_BLK_F_FLUSH
/// (bit 9).
///
/// VIRTIO_RING_F_EVENT_IDX (bit 29) is not among them: the virtqueue processor uses simple
/// avail/used-index notification and does not implement the used_event/avail_event suppression
/// that EVENT_IDX requires.
pub const BLK_FEATURES_LOW: u32 = 512;

/// VIRTIO_F_VERSION_1 (bit 32), which virtio-mmio v2 devices must offer.
pub const BLK_FEATURES_HIGH: u32 = 1;

/// Snapshot state for virtio-blk MMIO negotiation and queue configuration.
#[derive(Debug, Clone, PartialEq, Eq)]
pub struct VirtioBlkMmioState {
    pub regs: TransportRegs,
    pub queues: Vec<QueueState>,
    pub processor: Option<VirtQueueProcessorState>,
}

/// The virtio-mmio transport for a block device.
/// Owns the backend and processes virtqueue requests on QUEUE_NOTIFY.
pub struct VirtioBlkMmio<IO> {
    pub irq: u32,
    pub device_id: u32,
    pub vendor_id: u32,
    pub version: u32,
    pub regs: TransportRegs,
    /// Per-queue config (only queue 0 is used for virtio-blk).
    pub queues: Vec<QueueState>,
    /// The block backend (file-backed I/O).
    pub backend: Option<BlkBackend<IO>>,
    /// Guest memory (set after VM creation).
    pub guest_mem: Option<GuestMemoryMmap>,
    pub host_dirty: Option<SoftwareDirtyBitmap>,
    /// Persistent virtqueue processor (tracks last_avail_idx across calls).
    pub processor: Option<VirtQueueProcessor>,
    /// Optional per-device token bucket for IOPS and bandwidth caps.
    pub rate_limiter: Option<RateLimiter>,
    /// Interrupts that the guest is still to be sent.
    pub pending_irqs: u64,
    /// Diagnostic counter: number of QUEUE_NOTIFY writes received from the guest.
    pub notify_count: u64,
    /// Diagnostic counter: number of STATUS writes (driver progress through ACK, DRIVER,
    /// FEATURES_OK, DRIVER_OK).
    pub status_writes: u64,
}

/// The state of a [`VirtioBlkMmio`].
#[verifier::ext_equal]
pub struct BlkMmioView {
    pub irq: u32,
    pub device_id: u32,
    pub vendor_id: u32,
    pub version: u32,
    pub regs: TransportRegs,
    pub queues: Seq<QueueState>,
    pub backend: Option<BackendView>,
    pub ram: Option<Map<int, u8>>,
    pub dirty: Option<Seq<(u64, u64)>>,
    pub processor: Option<VirtQueueProcessor>,
    pub limiter: Option<Buckets>,
    pub pending_irqs: u64,
    pub notify_count: u64,
    pub status_writes: u64,
}

impl<IO> View for VirtioBlkMmio<IO> {
    type V = BlkMmioView;

    open spec fn view(&self) -> BlkMmioView {
        BlkMmioView {
            irq: self.irq,
            device_id: self.device_id,
            vendor_id: self.vendor_id,
            version: self.version,
            regs: self.regs,
            queues: self.queues@,
            backend: match self.backend {
                Some(b) => Some(b@),
                None => None,
            },
            ram: match self.guest_mem {
                Some(m) => Some(guest_memory::guest_bytes(m)),
                None => None,
            },
            dirty: match self.host_dirty {
                Some(d) => Some(d@),
                None => None,
            },
            processor: self.processor,
            limiter: match self.rate_limiter {
                Some(l) => Some(l@),
                None => None,
            },
            pending_irqs: self.pending_irqs,
            notify_count: self.notify_count,
            status_writes: self.status_writes,
        }
    }
}

/// What a device works on while it serves a request.
#[verifier::ext_equal]
pub struct BlkWork {
    pub mem: MemState,
    pub backend: BackendView,
    pub limiter: Option<Buckets>,
}

/// The bytes that a request with the readable bytes `data` is charged for.
pub open spec fn request_cost(data: Seq<u8>, writable: Seq<(u64, u32)>) -> u64 {
    let header = BlkReqHeader::decoded(data);
    if data.len() < 16 {
        0
    } else if header.req_type == req_type::IN {
        buffers::total_len(vqueue::data_buffers(writable)) as u64
    } else if header.req_type == req_type::OUT {
        (data.len() - 16) as u64
    } else if header.req_type == req_type::GET_ID {
        20
    } else {
        0
    }
}

/// The buffer that the backend is asked to service a request with; none where it is not asked.
pub open spec fn request_buffer(data: Seq<u8>, writable: Seq<(u64, u32)>) -> Option<Seq<u8>> {
    let header = BlkReqHeader::decoded(data);
    let room = buffers::total_len(vqueue::data_buffers(writable));
    if data.len() < 16 {
        None
    } else if header.req_type == req_type::IN {
        if room == 0 {
            None
        } else {
            Some(Seq::new(room, |i: int| 0u8))
        }
    } else if header.req_type == req_type::OUT {
        Some(data.subrange(16, data.len() as int))
    } else if header.req_type == req_type::FLUSH {
        Some(Seq::empty())
    } else if header.req_type == req_type::GET_ID {
        Some(Seq::new(20, |i: int| 0u8))
    } else {
        None
    }
}

/// The status of a request that the backend is not asked to service: an unknown type is
/// unsupported, a request without header or without room for its data is an error.
pub open spec fn unasked_status(data: Seq<u8>) -> u8 {
    if data.len() < 16 || BlkReqHeader::decoded(data).req_type == req_type::IN {
        status::IO_ERR
    } else {
        status::UNSUPP
    }
}

/// Memory after a request's status was stored in the last writable buffer, if there is room.
pub open spec fn status_stored(m: MemState, writable: Seq<(u64, u32)>, st: u8) -> MemState {
    if writable.len() > 0 && writable.last().1 > 0 {
        m.store(writable.last().0 as int, seq![st])
    } else {
        m
    }
}

/// Serving the request with the readable bytes `data` may turn `w` into `t`.
pub open spec fn request_served(
    w: BlkWork,
    data: Seq<u8>,
    writable: Seq<(u64, u32)>,
    t: BlkWork,
) -> bool {
    let header = BlkReqHeader::decoded(data);
    match request_buffer(data, writable) {
        None => t == BlkWork { mem: status_stored(w.mem, writable, unasked_status(data)), ..w },
        Some(buf) => backend_serves(w, header, buf, writable, t),
    }
}

/// Having the backend service a request with the buffer `buf` may turn `w` into `t`.
pub open spec fn backend_serves(
    w: BlkWork,
    header: BlkReqHeader,
    buf: Seq<u8>,
    writable: Seq<(u64, u32)>,
    t: BlkWork,
) -> bool {
    exists|after: BackendView, left: Seq<u8>, st: u8|
        #[trigger] blk_backend::service_runs(w.backend, header, buf, after, left, st) && t
            == request_answered(w, header, writable, after, left, st)
}

/// The work after the backend serviced a request and became `after`: what it left in the buffer
/// of a read goes back to the guest, and so does the status.
pub open spec fn request_answered(
    w: BlkWork,
    header: BlkReqHeader,
    writable: Seq<(u64, u32)>,
    after: BackendView,
    left: Seq<u8>,
    st: u8,
) -> BlkWork {
    let replied = if header.req_type == req_type::IN || header.req_type == req_type::GET_ID {
        buffers::scatter(w.mem, vqueue::data_buffers(writable), left)
    } else {
        w.mem
    };
    BlkWork { mem: status_stored(replied, writable, st), backend: after, limiter: w.limiter }
}

/// Taking up a chain may turn `w` into `t` with this answer: a request that the limiter refuses
/// stays in flight, any other is served and answered with the number of its descriptors.
pub open spec fn chain_served(
    w: BlkWork,
    chain: ChainView,
    t: BlkWork,
    answer: Option<u32>,
) -> bool {
    let data = buffers::gather(w.mem.ram, chain.readable);
    exists|l: Option<Buckets>, ok: bool|
        #[trigger] rate_limit::limiter_charges(w.limiter, request_cost(data, chain.writable), l, ok) && if ok {
            &&& answer == Some((chain.readable.len() + chain.writable.len()) as u32)
            &&& request_served(BlkWork { limiter: l, ..w }, data, chain.writable, t)
        } else {
            answer is None && t == BlkWork { limiter: l, ..w }
        }
}

/// A pass over the queue with the backend and the limiter.
#[verifier::ext_equal]
pub struct BlkPass {
    pub pass: PassState,
    pub backend: BackendView,
    pub limiter: Option<Buckets>,
}

impl BlkPass {
    pub open spec fn skipped(self, config: QueueConfig, target: u16) -> BlkPass {
        BlkPass { pass: self.pass.skipped(config, target), ..self }
    }

    pub open spec fn work(self) -> BlkWork {
        BlkWork { mem: self.pass.mem, backend: self.backend, limiter: self.limiter }
    }

    pub open spec fn with_work(self, w: BlkWork) -> BlkPass {
        BlkPass {
            pass: PassState { mem: w.mem, ..self.pass },
            backend: w.backend,
            limiter: w.limiter,
        }
    }

    pub open spec fn completed(self, config: QueueConfig, head: u16, len: u32) -> BlkPass {
        BlkPass { pass: self.pass.completed(config, head, len), ..self }
    }
}

/// A pass from `s` may end in `t`: each acceptable chain up to `target` is taken up in turn and
/// completed, until one stays in flight.
pub open spec fn blk_pass(
    config: QueueConfig,
    target: u16,
    s: BlkPass,
    t: BlkPass,
) -> bool
    decreases vqueue::idx_distance(s.pass.avail, target),
{
    let k = s.skipped(config, target);
    if k.pass.avail == target || vqueue::idx_distance(k.pass.avail, target)
        > vqueue::idx_distance(s.pass.avail, target) {
        t == k
    } else {
        let head = vqueue::avail_head(k.pass.mem.ram, config, k.pass.avail);
        let chain = vqueue::chain_from(k.pass.mem.ram, config, head)->0;
        exists|w: BlkWork, answer: Option<u32>|
            #[trigger] chain_served(k.work(), chain, w, answer) && match answer {
                None => t == k.with_work(w),
                Some(len) => blk_pass(
                    config,
                    target,
                    k.with_work(w).completed(config, head, len),
                    t,
                ),
            }
    }
}

impl BlkMmioView {
    /// The processor that works on queue 0 as the registers describe it: it keeps its place.
    pub open spec fn configured(self) -> VirtQueueProcessor {
        queue_state::configured(self.processor, self.queues[0])
    }

    /// There is memory, and queue 0 is ready with a valid size.
    pub open spec fn can_process(self) -> bool {
        &&& self.ram is Some
        &&& self.queues.len() > 0
        &&& self.queues[0].ready
        &&& self.queues[0].sized()
    }

    /// The state in which a pass starts.
    pub open spec fn pass_start(self) -> BlkPass {
        BlkPass {
            pass: PassState::start(
                self.configured(),
                MemState { ram: self.ram->0, marks: queue_state::recorded(self.dirty) },
            ),
            backend: self.backend->0,
            limiter: self.limiter,
        }
    }

    /// The device after a pass that ended in `w`: the used index is published, and the guest is
    /// interrupted where at least one request was completed.
    pub open spec fn pass_finished(self, w: BlkPass) -> BlkMmioView {
        let config = self.configured().config;
        let m = vqueue::used_idx_stored(w.pass.mem, config, w.pass.used);
        BlkMmioView {
            processor: Some(
                VirtQueueProcessor {
                    config,
                    last_avail_idx: w.pass.avail,
                    last_used_idx: w.pass.used,
                },
            ),
            backend: Some(w.backend),
            limiter: w.limiter,
            ram: Some(m.ram),
            dirty: match self.dirty {
                Some(_) => Some(m.marks),
                None => None,
            },
            regs: if w.pass.done > 0 {
                self.regs.interrupted(VIRTIO_MMIO_INT_VRING)
            } else {
                self.regs
            },
            pending_irqs: if w.pass.done > 0 {
                transport_regs::counted(self.pending_irqs)
            } else {
                self.pending_irqs
            },
            ..self
        }
    }

    /// The device after a reset: everything negotiated is gone.
    pub open spec fn reset(self) -> BlkMmioView {
        BlkMmioView {
            regs: TransportRegs::cleared(),
            queues: Seq::new(self.queues.len(), |i: int| QueueState::cleared()),
            processor: None,
            ..self
        }
    }

    /// The device after a write to a register other than QUEUE_NOTIFY.
    pub open spec fn written(self, off: u64, val: u32) -> BlkMmioView {
        if off == reg::STATUS {
            let counted = BlkMmioView {
                status_writes: transport_regs::counted(self.status_writes),
                ..self
            };
            if val == 0 {
                counted.reset()
            } else {
                BlkMmioView { regs: self.regs.with_status(val), ..counted }
            }
        } else if queue_state::is_queue_register(off) {
            BlkMmioView {
                queues: queue_state::queues_written(self.queues, self.regs.queue_sel, off, val),
                ..self
            }
        } else {
            BlkMmioView { regs: self.regs.written(off, val, ALL_FEATURES, ALL_FEATURES), ..self }
        }
    }

    /// What the register at `off` reads. The configuration space holds the capacity in sectors
    /// and the block size, and reads as a window of four bytes.
    pub open spec fn register(self, off: u64) -> u32 {
        if off == reg::MAGIC_VALUE {
            MAGIC
        } else if off == reg::VERSION {
            self.version
        } else if off == reg::DEVICE_ID {
            self.device_id
        } else if off == reg::VENDOR_ID {
            self.vendor_id
        } else if off == reg::HOST_FEATURES {
            if self.regs.host_features_sel == 0 {
                BLK_FEATURES_LOW
            } else if self.regs.host_features_sel == 1 {
                BLK_FEATURES_HIGH
            } else {
                0
            }
        } else if off == reg::QUEUE_NUM_MAX {
            MAX_QUEUE_SIZE as u32
        } else if off == reg::STATUS {
            self.regs.status
        } else if off == reg::INTERRUPT_STATUS {
            self.regs.interrupt_status
        } else if queue_state::is_queue_register(off) {
            queue_state::queues_register(self.queues, self.regs.queue_sel, off)
        } else if reg::CONFIG <= off < reg::CONFIG + 12 && self.backend is Some {
            bytes::le32_at(config_space(self.backend->0.sectors), off - reg::CONFIG) as u32
        } else {
            0
        }
    }

    /// What the device saves.
    pub open spec fn saved(self) -> (TransportRegs, Seq<QueueState>, Option<VirtQueueProcessorState>) {
        (
            self.regs,
            self.queues,
            queue_state::saved_processor(self.processor),
        )
    }

    /// The device after it took back what was saved.
    pub open spec fn restored(
        self,
        saved: (TransportRegs, Seq<QueueState>, Option<VirtQueueProcessorState>),
    ) -> BlkMmioView {
        BlkMmioView {
            regs: saved.0,
            queues: saved.1,
            processor: queue_state::restored_processor(saved.1, 0, saved.2),
            ..self
        }
    }
}

/// The configuration space of a device with `sectors` sectors, padded for reads near its end.
pub open spec fn config_space(sectors: u64) -> Seq<u8> {
    bytes::le64_bytes(sectors as int) + bytes::le32_bytes(512) + seq![0u8, 0, 0, 0]
}

/// A pass over the requests completes no more chains than the guest made available, and the used
/// ring advances by one for each.
pub proof fn law_blk_pass_advances(
    config: QueueConfig,
    target: u16,
    s: BlkPass,
    t: BlkPass,
)
    requires
        blk_pass(config, target, s, t),
    ensures
        vqueue::pass_laws::advanced(s.pass, t.pass, target),
    decreases vqueue::idx_distance(s.pass.avail, target),
{
    let k = s.skipped(config, target);
    vqueue::lemma_skip_rejected(s.pass.mem.ram, config, s.pass.avail, target);
    if k.pass.avail != target {
        let head = vqueue::avail_head(k.pass.mem.ram, config, k.pass.avail);
        let chain = vqueue::chain_from(k.pass.mem.ram, config, head)->0;
        let (w, answer) = choose|w: BlkWork, answer: Option<u32>|
            #[trigger] chain_served(k.work(), chain, w, answer) && match answer {
                None => t == k.with_work(w),
                Some(len) => blk_pass(
                    config,
                    target,
                    k.with_work(w).completed(config, head, len),
                    t,
                ),
            };
        match answer {
            None => {},
            Some(len) => {
                let next = k.with_work(w).completed(config, head, len);
                law_blk_pass_advances(config, target, next, t);
                vqueue::pass_laws::lemma_one_more(s.pass, k.pass, next.pass, t.pass, target);
            },
        }
    }
}

/// A device takes back what it saved: every register, every queue, and its place in the rings.
pub proof fn law_blk_save_restore(a: BlkMmioView, b: BlkMmioView)
    ensures
        b.restored(a.saved()).saved() == a.saved(),
        b.restored(a.saved()).regs == a.regs,
        b.restored(a.saved()).queues == a.queues,
{
}

/// After a reset every register reads as that of a new device with the same backend.
pub proof fn law_blk_reset_is_fresh(s: BlkMmioView, off: u64)
    ensures
        s.written(reg::STATUS, 0).register(off) == (BlkMmioView {
            vendor_id: s.vendor_id,
            version: s.version,
            ..fresh_view(s.irq, s.device_id, s.backend)
        }).register(off),
        s.written(reg::STATUS, 0).regs == TransportRegs::cleared(),
        s.written(reg::STATUS, 0).processor is None,
        s.written(reg::STATUS, 0).queues.len() == s.queues.len(),
{
}

/// How a kick of the queue may turn the device from `s` into `t`.
pub open spec fn blk_kicked(s: BlkMmioView, t: BlkMmioView) -> bool {
    if !s.can_process() {
        t == s
    } else if s.backend is None || !vqueue::queue_usable(s.ram->0, s.queues[0].config()) {
        t == BlkMmioView { processor: Some(s.configured()), ..s }
    } else {
        exists|w: BlkPass|
            #[trigger] blk_pass(
                s.queues[0].config(),
                vqueue::avail_ring_idx(s.ram->0, s.queues[0].config()),
                s.pass_start(),
                w,
            ) && t == s.pass_finished(w)
    }
}

impl<IO: Fn(DiskOp) -> Option<Vec<u8>>> VirtioBlkMmio<IO> {
    /// The backend, if there is one, is in a valid state.
    pub open spec fn wf(&self) -> bool {
        self.backend matches Some(b) ==> b.wf()
    }

    /// Both devices have the same backend functions, or both have none.
    pub open spec fn same_io(&self, other: &Self) -> bool {
        &&& self.backend is Some == other.backend is Some
        &&& self.backend is Some ==> self.backend->0.disk.io()
            == other.backend->0.disk.io()
    }

    /// Create a new virtio-blk MMIO device with a file-backed backend.
    pub fn new(irq: u32, backend: BlkBackend<IO>) -> (d: Self)
        requires
            backend.wf(),
        ensures
            d.wf(),
            d.backend == Some(backend),
            d@ == fresh_view(irq, 2, Some(backend@)),
    {
        let queues: Vec<QueueState> = vec![QueueState::default()];
        let d = VirtioBlkMmio {
            irq,
            device_id: 2,
            vendor_id: 0,
            version: 2,
            regs: TransportRegs::new(),
            queues,
            backend: Some(backend),
            guest_mem: None,
            host_dirty: None,
            processor: None,
            rate_limiter: None,
            pending_irqs: 0,
            notify_count: 0,
            status_writes: 0,
        };
        assert(d@ =~= fresh_view(irq, 2, Some(backend@)));
        d
    }

    /// Create a stub device (no backend, for testing the transport).
    pub fn new_stub(irq: u32, device_id: u32) -> (d: Self)
        ensures
            d.wf(),
            d.backend is None,
            d@ == fresh_view(irq, device_id, None),
    {
        let queues: Vec<QueueState> = vec![QueueState::default()];
        let d = VirtioBlkMmio {
            irq,
            device_id,
            vendor_id: 0,
            version: 2,
            regs: TransportRegs::new(),
            queues,
            backend: None,
            guest_mem: None,
            host_dirty: None,
            processor: None,
            rate_limiter: None,
            pending_irqs: 0,
            notify_count: 0,
            status_writes: 0,
        };
        assert(d@ =~= fresh_view(irq, device_id, None));
        d
    }
}

/// A device that nothing was negotiated with yet.
pub open spec fn fresh_view(irq: u32, device_id: u32, backend: Option<BackendView>) -> BlkMmioView {
    BlkMmioView {
        irq,
        device_id,
        vendor_id: 0,
        version: 2,
        regs: TransportRegs::cleared(),
        queues: seq![QueueState::cleared()],
        backend,
        ram: None,
        dirty: None,
        processor: None,
        limiter: None,
        pending_irqs: 0,
        notify_count: 0,
        status_writes: 0,
    }
}

impl<IO: Fn(DiskOp) -> Option<Vec<u8>>> VirtioBlkMmio<IO> {
    /// Read the current guest-facing STATUS register.
    pub fn current_status(&self) -> (st: u32)
        ensures
            st == self.regs.status,
    {
        self.regs.status
    }

    /// True once the guest has set DRIVER_OK.
    pub fn is_activated(&self) -> (r: bool)
        ensures
            r == self.regs.activated,
    {
        self.regs.activated
    }

    /// Takes the interrupts that are to be sent to the guest.
    pub fn take_irqs(&mut self) -> (n: u64)
        requires
            old(self).wf(),
        ensures
            n == old(self).pending_irqs,
            final(self).wf(),
            final(self).same_io(old(self)),
            final(self)@ == (BlkMmioView { pending_irqs: 0, ..old(self)@ }),
    {
        let n: u64 = self.pending_irqs;
        self.pending_irqs = 0;
        n
    }

    /// Set the guest memory (called after VM creation).
    pub fn set_guest_memory(&mut self, mem: GuestMemoryMmap)
        requires
            old(self).wf(),
        ensures
            final(self).wf(),
            final(self).same_io(old(self)),
            final(self)@ == (BlkMmioView {
                ram: Some(guest_memory::guest_bytes(mem)),
                ..old(self)@
            }),
    {
        self.guest_mem = Some(mem);
    }

    /// Record what the device writes to guest memory in `dirty`.
    pub fn set_guest_dirty_tracker(&mut self, dirty: SoftwareDirtyBitmap)
        requires
            old(self).wf(),
        ensures
            final(self).wf(),
            final(self).same_io(old(self)),
            final(self)@ == (BlkMmioView { dirty: Some(dirty@), ..old(self)@ }),
    {
        self.host_dirty = Some(dirty);
    }

    /// Install a per-device rate limiter. Leaving it unset keeps I/O unlimited.
    pub fn set_rate_limiter(&mut self, rl: RateLimiter)
        requires
            old(self).wf(),
        ensures
            final(self).wf(),
            final(self).same_io(old(self)),
            final(self)@ == (BlkMmioView { limiter: Some(rl@), ..old(self)@ }),
    {
        self.rate_limiter = Some(rl);
    }

    /// The bytes that a request is charged for.
    fn request_bytes(data: &[u8], writable: &[(u64, u32)]) -> (n: u64)
        requires
            buffers::total_len(writable@) <= vqueue::MAX_CHAIN_BYTES,
        ensures
            n == request_cost(data@, writable@),
    {
        match BlkReqHeader::from_bytes(data) {
            None => 0,
            Some(header) => if header.req_type == req_type::IN {
                Self::writable_data_len(writable) as u64
            } else if header.req_type == req_type::OUT {
                (data.len() - 16) as u64
            } else if header.req_type == req_type::GET_ID {
                20
            } else {
                0
            },
        }
    }

    /// The bytes of the writable buffers in front of the one for the status.
    fn writable_data_len(writable: &[(u64, u32)]) -> (n: usize)
        requires
            buffers::total_len(writable@) <= vqueue::MAX_CHAIN_BYTES,
        ensures
            n == buffers::total_len(vqueue::data_buffers(writable@)),
    {
        let count: usize = if writable.len() == 0 {
            0
        } else {
            writable.len() - 1
        };
        assert(vqueue::data_buffers(writable@) =~= writable@.take(count as int));
        descs_len(writable, count)
    }

    /// Stores a request's status in the last writable buffer, if there is room.
    fn write_status(
        mem: &mut GuestMemoryMmap,
        dirty: &mut SoftwareDirtyBitmap,
        writable: &[(u64, u32)],
        st: u8,
    )
        requires
            buffers::all_mapped(guest_memory::guest_bytes(*old(mem)), writable@),
        ensures
            buffers::mem_state(*final(mem), *final(dirty)) == status_stored(
                buffers::mem_state(*old(mem), *old(dirty)),
                writable@,
                st,
            ),
            guest_memory::guest_bytes(*final(mem)).dom() == guest_memory::guest_bytes(
                *old(mem),
            ).dom(),
    {
        let n: usize = writable.len();
        if n == 0 {
            return ;
        }
        let (addr, len) = writable[n - 1];
        assert(writable@[n - 1] == (addr, len));
        if len > 0 {
            let byte: Vec<u8> = vec![st];
            assert(byte@ =~= seq![st]);
            assert(guest_memory::is_mapped(guest_memory::guest_bytes(*mem), addr as int, 1));
            let _ok = write_slice_mem(mem, dirty, byte.as_slice(), addr);
        }
    }

    /// Takes up one chain: charges it, has the backend service it, and stores the reply.
    fn serve_chain(
        mem: &mut GuestMemoryMmap,
        dirty: &mut SoftwareDirtyBitmap,
        backend: &mut BlkBackend<IO>,
        limiter: &mut Option<RateLimiter>,
        chain: &DescriptorChain,
    ) -> (answer: Option<u32>)
        requires
            old(backend).wf(),
            buffers::all_mapped(guest_memory::guest_bytes(*old(mem)), chain.readable@),
            buffers::all_mapped(guest_memory::guest_bytes(*old(mem)), chain.writable@),
            buffers::total_len(chain.readable@) + buffers::total_len(chain.writable@)
                <= vqueue::MAX_CHAIN_BYTES,
            chain.readable@.len() + chain.writable@.len() <= 256,
        ensures
            final(backend).wf(),
            final(backend).disk.io() == old(backend).disk.io(),
            guest_memory::guest_bytes(*final(mem)).dom() == guest_memory::guest_bytes(
                *old(mem),
            ).dom(),
            chain_served(
                BlkWork {
                    mem: buffers::mem_state(*old(mem), *old(dirty)),
                    backend: old(backend)@,
                    limiter: rate_limit::limiter_view(*old(limiter)),
                },
                chain@,
                BlkWork {
                    mem: buffers::mem_state(*final(mem), *final(dirty)),
                    backend: final(backend)@,
                    limiter: rate_limit::limiter_view(*final(limiter)),
                },
                answer,
            ),
    {
        let ghost m0 = buffers::mem_state(*mem, *dirty);
        let used_len: u32 = (chain.readable.len() + chain.writable.len()) as u32;
        let rn: usize = chain.readable.len();
        assert(chain.readable@.take(rn as int) =~= chain.readable@);
        let data = match read_descs(mem, chain.readable.as_slice(), rn) {
            Some(data) => data,
            None => Vec::new(),
        };
        proof {
            buffers::lemma_gather_len(m0.ram, chain.readable@);
        }
        let cost: u64 = Self::request_bytes(data.as_slice(), chain.writable.as_slice());
        let ghost l0 = rate_limit::limiter_view(*limiter);
        let allowed = charge(limiter, cost);
        let ghost l1 = rate_limit::limiter_view(*limiter);
        assert(data@ == buffers::gather(m0.ram, chain@.readable));
        assert(cost == request_cost(data@, chain@.writable));
        if !allowed {
            return None;
        }
        let ghost w1 = BlkWork { mem: m0, backend: backend@, limiter: l1 };
        let header = match BlkReqHeader::from_bytes(data.as_slice()) {
            Some(header) => header,
            None => {
                Self::write_status(mem, dirty, chain.writable.as_slice(), status::IO_ERR);
                assert(request_served(
                    w1,
                    data@,
                    chain.writable@,
                    BlkWork {
                        mem: buffers::mem_state(*mem, *dirty),
                        backend: backend@,
                        limiter: l1,
                    },
                ));
                return Some(used_len);
            },
        };
        let wn: usize = if chain.writable.len() == 0 {
            0
        } else {
            chain.writable.len() - 1
        };
        assert(chain.writable@.take(wn as int) =~= vqueue::data_buffers(chain.writable@));
        let data_len: usize = Self::writable_data_len(chain.writable.as_slice());
        let mut buf: Vec<u8>;
        if header.req_type == req_type::IN && data_len > 0 {
            buf = zeros(data_len);
        } else if header.req_type == req_type::OUT {
            buf = copy_range(data.as_slice(), 16, data.len());
        } else if header.req_type == req_type::FLUSH {
            buf = Vec::new();
        } else if header.req_type == req_type::GET_ID {
            buf = zeros(20);
        } else {
            let st: u8 = if header.req_type == req_type::IN {
                status::IO_ERR
            } else {
                status::UNSUPP
            };
            Self::write_status(mem, dirty, chain.writable.as_slice(), st);
            assert(request_served(
                w1,
                data@,
                chain.writable@,
                BlkWork {
                    mem: buffers::mem_state(*mem, *dirty),
                    backend: backend@,
                    limiter: l1,
                },
            ));
            return Some(used_len);
        }
        assert(request_buffer(data@, chain.writable@) == Some(buf@));
        let ghost asked = buf@;
        let st: u8 = backend.service(&header, &mut buf);
        assert(header == BlkReqHeader::decoded(data@));
        assert(blk_backend::service_runs(w1.backend, header, asked, backend@, buf@, st));
        let ghost replied = if header.req_type == req_type::IN || header.req_type
            == req_type::GET_ID {
            buffers::scatter(w1.mem, vqueue::data_buffers(chain.writable@), buf@)
        } else {
            w1.mem
        };
        if header.req_type == req_type::IN || header.req_type == req_type::GET_ID {
            let ghost before = guest_memory::guest_bytes(*mem);
            let _n: usize = write_descs(
                mem,
                dirty,
                chain.writable.as_slice(),
                wn,
                buf.as_slice(),
            );
            proof {
                buffers::lemma_scatter_dom(m0, vqueue::data_buffers(chain.writable@), buf@);
                buffers::lemma_all_mapped_dom(
                    before,
                    guest_memory::guest_bytes(*mem),
                    chain.writable@,
                );
            }
        }
        assert(buffers::mem_state(*mem, *dirty) == replied);
        Self::write_status(mem, dirty, chain.writable.as_slice(), st);
        assert(BlkWork { mem: buffers::mem_state(*mem, *dirty), backend: backend@, limiter: l1 }
            == request_answered(w1, header, chain.writable@, backend@, buf@, st));
        assert(backend_serves(
            w1,
            header,
            asked,
            chain.writable@,
            BlkWork { mem: buffers::mem_state(*mem, *dirty), backend: backend@, limiter: l1 },
        ));
        Some(used_len)
    }

    /// Works through the queue with the given backend and memory; returns how many requests were
    /// completed.
    fn drain(
        processor: &mut VirtQueueProcessor,
        mem: &mut GuestMemoryMmap,
        dirty: &mut SoftwareDirtyBitmap,
        backend: &mut BlkBackend<IO>,
        limiter: &mut Option<RateLimiter>,
    ) -> (done: usize)
        requires
            old(backend).wf(),
        ensures
            final(backend).wf(),
            final(backend).disk.io() == old(backend).disk.io(),
            final(processor).config == old(processor).config,
            !vqueue::queue_usable(guest_memory::guest_bytes(*old(mem)), old(processor).config)
                ==> {
                &&& done == 0
                &&& *final(processor) == *old(processor)
                &&& buffers::mem_state(*final(mem), *final(dirty)) == buffers::mem_state(
                    *old(mem),
                    *old(dirty),
                )
                &&& final(backend)@ == old(backend)@
                &&& *final(limiter) == *old(limiter)
            },
            vqueue::queue_usable(guest_memory::guest_bytes(*old(mem)), old(processor).config)
                ==> exists|w: BlkPass|
                {
                    &&& #[trigger] blk_pass(
                        old(processor).config,
                        vqueue::avail_ring_idx(
                            guest_memory::guest_bytes(*old(mem)),
                            old(processor).config,
                        ),
                        BlkPass {
                            pass: PassState::start(
                                *old(processor),
                                buffers::mem_state(*old(mem), *old(dirty)),
                            ),
                            backend: old(backend)@,
                            limiter: rate_limit::limiter_view(*old(limiter)),
                        },
                        w,
                    )
                    &&& final(processor).last_avail_idx == w.pass.avail
                    &&& final(processor).last_used_idx == w.pass.used
                    &&& done == w.pass.done
                    &&& buffers::mem_state(*final(mem), *final(dirty)) == vqueue::used_idx_stored(
                        w.pass.mem,
                        old(processor).config,
                        w.pass.used,
                    )
                    &&& final(backend)@ == w.backend
                    &&& rate_limit::limiter_view(*final(limiter)) == w.limiter
                },
    {
        let target: u16 = match processor.available(mem) {
            Some(idx) => idx,
            None => {
                return 0;
            },
        };
        let ghost config = processor.config;
        let ghost s0 = BlkPass {
            pass: PassState::start(*processor, buffers::mem_state(*mem, *dirty)),
            backend: backend@,
            limiter: rate_limit::limiter_view(*limiter),
        };
        let ghost mut s = s0;
        let mut done: usize = 0;
        loop
            invariant_except_break
                done + vqueue::idx_distance(s.pass.avail, target) <= 0xffff,
                forall|t: BlkPass|
                    #[trigger] blk_pass(config, target, s, t) ==> blk_pass(
                        config,
                        target,
                        s0,
                        t,
                    ),
            invariant
                backend.wf(),
                backend.disk.io() == old(backend).disk.io(),
                processor.config == config,
                vqueue::queue_usable(guest_memory::guest_bytes(*mem), config),
                s.pass.avail == processor.last_avail_idx,
                s.pass.used == processor.last_used_idx,
                s.pass.mem == buffers::mem_state(*mem, *dirty),
                s.pass.done == done,
                s.backend == backend@,
                s.limiter == rate_limit::limiter_view(*limiter),
            ensures
                blk_pass(config, target, s0, s),
            decreases vqueue::idx_distance(processor.last_avail_idx, target),
        {
            let ghost k = s.skipped(config, target);
            proof {
                vqueue::lemma_skip_rejected(s.pass.mem.ram, config, s.pass.avail, target);
            }
            match processor.next_chain(mem, target) {
                None => {
                    assert(blk_pass(config, target, s, k));
                    proof {
                        s = k;
                    }
                    break;
                },
                Some((head, chain)) => {
                    let ghost before = guest_memory::guest_bytes(*mem);
                    proof {
                        vqueue::lemma_chain_buffers(before, config, head);
                    }
                    let answer = Self::serve_chain(mem, dirty, backend, limiter, &chain);
                    let ghost w = BlkWork {
                        mem: buffers::mem_state(*mem, *dirty),
                        backend: backend@,
                        limiter: rate_limit::limiter_view(*limiter),
                    };
                    proof {
                        assert(chain_served(k.work(), chain@, w, answer));
                        vqueue::lemma_usable_dom(before, guest_memory::guest_bytes(*mem), config);
                    }
                    match answer {
                        None => {
                            assert(blk_pass(config, target, s, k.with_work(w)));
                            proof {
                                s = k.with_work(w);
                            }
                            break;
                        },
                        Some(len) => {
                            let ghost mid = guest_memory::guest_bytes(*mem);
                            processor.complete_chain(mem, dirty, head, len);
                            proof {
                                vqueue::lemma_usable_dom(
                                    mid,
                                    guest_memory::guest_bytes(*mem),
                                    config,
                                );
                                let next = k.with_work(w).completed(config, head, len);
                                assert forall|t: BlkPass|
                                    #[trigger] blk_pass(config, target, next, t) implies
                                    blk_pass(config, target, s0, t) by {
                                    assert(blk_pass(config, target, s, t));
                                }
                                s = next;
                            }
                            done = done + 1;
                        },
                    }
                },
            }
        }
        processor.publish_used(mem, dirty);
        done
    }

    /// Process the virtqueue when the guest kicks (writes to QUEUE_NOTIFY).
    pub fn process_queue(&mut self, _queue_idx: u32)
        requires
            old(self).wf(),
        ensures
            final(self).wf(),
            final(self).same_io(old(self)),
            blk_kicked(old(self)@, final(self)@),
    {
        if self.guest_mem.is_none() || self.queues.len() == 0 {
            return ;
        }
        let q = self.queues[0];
        if !q.ready || !q.valid_size() {
            return ;
        }
        let ghost config = q.config();
        // Get or create the persistent processor.
        let mut processor = configure(self.processor.take(), &q);
        let ghost configured = processor;
        if self.backend.is_none() {
            self.processor = Some(processor);
            return ;
        }
        if let (Some(mem), Some(backend)) = (self.guest_mem.take(), self.backend.take()) {
            let mut mem = mem;
            let mut backend = backend;
            let has_tracker = self.host_dirty.is_some();
            let mut dirty = match self.host_dirty.take() {
                Some(d) => d,
                None => SoftwareDirtyBitmap::new(),
            };
            let done: usize = Self::drain(
                &mut processor,
                &mut mem,
                &mut dirty,
                &mut backend,
                &mut self.rate_limiter,
            );
            self.guest_mem = Some(mem);
            self.backend = Some(backend);
            if has_tracker {
                self.host_dirty = Some(dirty);
            }
            self.processor = Some(processor);
            // If we processed any requests, signal an interrupt to the guest.
            if done > 0 {
                self.regs.raise(VIRTIO_MMIO_INT_VRING);
                self.pending_irqs = self.pending_irqs.wrapping_add(1);
            }
            proof {
                if vqueue::queue_usable(old(self)@.ram->0, config) {
                    let w = choose|w: BlkPass|
                        {
                            &&& #[trigger] blk_pass(
                                config,
                                vqueue::avail_ring_idx(old(self)@.ram->0, config),
                                old(self)@.pass_start(),
                                w,
                            )
                            &&& processor.last_avail_idx == w.pass.avail
                            &&& processor.last_used_idx == w.pass.used
                            &&& done == w.pass.done
                            &&& buffers::mem_state(mem, dirty) == vqueue::used_idx_stored(
                                w.pass.mem,
                                config,
                                w.pass.used,
                            )
                            &&& backend@ == w.backend
                            &&& rate_limit::limiter_view(self.rate_limiter) == w.limiter
                        };
                    assert(self@ =~= old(self)@.pass_finished(w));
                } else {
                    assert(self@ =~= BlkMmioView { processor: Some(configured), ..old(self)@ });
                }
            }
        }
    }
}

impl<IO: Fn(DiskOp) -> Option<Vec<u8>>> Persist for VirtioBlkMmio<IO> {
    type State = VirtioBlkMmioState;

    fn save(&self) -> (s: VirtioBlkMmioState)
        ensures
            (s.regs, s.queues@, s.processor) == self@.saved(),
    {
        VirtioBlkMmioState {
            regs: self.regs,
            queues: copy_queues(&self.queues),
            processor: save_processor(&self.processor),
        }
    }

    fn restore(&mut self, state: VirtioBlkMmioState)
        ensures
            final(self)@ == old(self)@.restored((state.regs, state.queues@, state.processor)),
            final(self).backend == old(self).backend,
    {
        self.regs = state.regs;
        self.processor = restore_processor(&state.queues, 0, state.processor);
        self.queues = state.queues;
    }
}

impl<IO: Fn(DiskOp) -> Option<Vec<u8>> + Send + Sync> MmioDevice for VirtioBlkMmio<IO> {
    open spec fn reads(&self, off: u64, len: u8, r: MmioReadResult) -> bool {
        r == Ok::<u64, MmioError>(self@.register(off) as u64)
    }

    open spec fn writes(
        &self,
        off: u64,
        val: u64,
        len: u8,
        post: &Self,
        r: MmioWriteResult,
    ) -> bool {
        &&& r == Ok::<(), MmioError>(())
        &&& self.same_io(post)
        &&& if off == reg::QUEUE_NOTIFY {
            blk_kicked(
                BlkMmioView {
                    notify_count: transport_regs::counted(self.notify_count),
                    ..self@
                },
                post@,
            )
        } else {
            post@ == self@.written(off, val as u32)
        }
    }

    open spec fn inv(&self) -> bool {
        self.wf()
    }

    fn mmio_read(&self, off: u64, _len: u8) -> (r: MmioReadResult) {
        let val: u32 = if off == reg::MAGIC_VALUE {
            MAGIC
        } else if off == reg::VERSION {
            self.version
        } else if off == reg::DEVICE_ID {
            self.device_id
        } else if off == reg::VENDOR_ID {
            self.vendor_id
        } else if off == reg::HOST_FEATURES {
            // The selected 32-bit page of host features.
            if self.regs.host_features_sel == 0 {
                BLK_FEATURES_LOW
            } else if self.regs.host_features_sel == 1 {
                BLK_FEATURES_HIGH
            } else {
                0
            }
        } else if off == reg::QUEUE_NUM_MAX {
            MAX_QUEUE_SIZE as u32
        } else if off == reg::STATUS {
            self.regs.status
        } else if off == reg::INTERRUPT_STATUS {
            self.regs.interrupt_status
        } else if is_queue_reg(off) {
            // The kernel writes QUEUE_READY=1 and reads it back: the queue's own flag answers.
            read_queue_register(&self.queues, self.regs.queue_sel, off)
        } else if off >= reg::CONFIG && off < reg::CONFIG + 12 {
            match &self.backend {
                Some(b) => {
                    // The config space: [capacity u64][blk_size u32].
                    let mut cfg: Vec<u8> = Vec::new();
                    push_le64(&mut cfg, b.sectors);
                    push_le32(&mut cfg, 512);
                    cfg.push(0);
                    cfg.push(0);
                    cfg.push(0);
                    cfg.push(0);
                    assert(cfg@ =~= config_space(b.sectors));
                    read_le32(cfg.as_slice(), (off - reg::CONFIG) as usize)
                },
                None => 0,
            }
        } else {
            0
        };
        Ok(val as u64)
    }

    fn mmio_write(&mut self, off: u64, val: u64, _len: u8) -> (r: MmioWriteResult) {
        let val: u32 = val as u32;
        if off == reg::STATUS {
            self.status_writes = self.status_writes.wrapping_add(1);
            if val == 0 {
                // Writing 0 triggers a device reset: everything negotiated is cleared, so that
                // a re-probe starts clean.
                self.regs = TransportRegs::new();
                self.queues = cleared_queues(self.queues.len());
                self.processor = None;
            } else {
                self.regs.set_status(val);
            }
        } else if off == reg::QUEUE_NOTIFY {
            self.notify_count = self.notify_count.wrapping_add(1);
            self.process_queue(val);
        } else if is_queue_reg(off) {
            write_queue_register(&mut self.queues, self.regs.queue_sel, off, val);
        } else {
            self.regs.write(off, val, ALL_FEATURES, ALL_FEATURES);
        }
        Ok(())
    }
}

} // verus!
