//! virtio-mmio transport for virtio-rng: register decode + one entropy queue.
use crate::bus::{MmioDevice, MmioError, MmioReadResult, MmioWriteResult};
use crate::bytes::zeros;
use crate::dirty::SoftwareDirtyBitmap;
use crate::guest_memory;
use crate::persist::Persist;
use crate::virtio::buffers::{self, write_slice_mem, MemState};
use crate::virtio::queue_state::{
    self, cleared_queues, configure, copy_queues, is_queue_reg, read_queue_register,
    write_queue_register, QueueState,
};
use crate::virtio::regs::{reg, MAGIC};
use crate::virtio::rng::entropy::EntropyDraw;
use crate::virtio::rng::{RngView, VirtioRng, DEVICE_ID_RNG};
use crate::virtio::transport_regs::{self, TransportRegs, ALL_FEATURES, VIRTIO_MMIO_INT_VRING};
use crate::virtio::vqueue::{
    self, ChainView, DescriptorChain, Pass, PassState, VirtQueueProcessor, MAX_QUEUE_SIZE,
};
use vm_memory::GuestMemoryMmap;
use vstd::prelude::*;

pub mod laws;

verus! {

pub const RNG_FEATURES_LOW: u32 = 0;

/// VIRTIO_F_VERSION_1 (bit 32).
pub const RNG_FEATURES_HIGH: u32 = 1;

pub const QUEUE_RNG: usize = 0;

/// Snapshot state for virtio-rng MMIO negotiation and queue configuration.
#[derive(Debug, Clone, PartialEq, Eq)]
pub struct VirtioRngMmioState {
    pub regs: TransportRegs,
    pub queues: Vec<QueueState>,
}

/// The virtio-mmio transport for an entropy device.
pub struct VirtioRngMmio {
    pub irq: u32,
    pub device_id: u32,
    pub vendor_id: u32,
    pub version: u32,
    pub regs: TransportRegs,
    pub queues: Vec<QueueState>,
    pub rng: VirtioRng,
    pub guest_mem: Option<GuestMemoryMmap>,
    pub host_dirty: Option<SoftwareDirtyBitmap>,
    pub processor: Option<VirtQueueProcessor>,
    /// Interrupts that the guest is still to be sent.
    pub pending_irqs: u64,
    pub notify_count: u64,
    pub status_writes: u64,
}

/// The state of a [`VirtioRngMmio`].
#[verifier::ext_equal]
pub struct RngMmioView {
    pub irq: u32,
    pub device_id: u32,
    pub vendor_id: u32,
    pub version: u32,
    pub regs: TransportRegs,
    pub queues: Seq<QueueState>,
    pub rng: RngView,
    pub ram: Option<Map<int, u8>>,
    pub dirty: Option<Seq<(u64, u64)>>,
    pub processor: Option<VirtQueueProcessor>,
    pub pending_irqs: u64,
    pub notify_count: u64,
    pub status_writes: u64,
}

impl View for VirtioRngMmio {
    type V = RngMmioView;

    open spec fn view(&self) -> RngMmioView {
        RngMmioView {
            irq: self.irq,
            device_id: self.device_id,
            vendor_id: self.vendor_id,
            version: self.version,
            regs: self.regs,
            queues: self.queues@,
            rng: self.rng@,
            ram: match self.guest_mem {
                Some(m) => Some(guest_memory::guest_bytes(m)),
                None => None,
            },
            dirty: match self.host_dirty {
                Some(d) => Some(d@),
                None => None,
            },
            processor: self.processor,
            pending_irqs: self.pending_irqs,
            notify_count: self.notify_count,
            status_writes: self.status_writes,
        }
    }
}

/// How filling the writable buffers goes: for each the host's source is asked for as many bytes,
/// and what it gives is stored there and counted, until it gives none.
pub open spec fn rng_fills(
    s: RngView,
    m: MemState,
    writable: Seq<(u64, u32)>,
    used: int,
    t: RngView,
    m2: MemState,
    used2: int,
) -> bool
    decreases writable.len(),
{
    if writable.len() == 0 {
        t == s && m2 == m && used2 == used
    } else if writable[0].1 == 0 {
        rng_fills(s, m, writable.skip(1), used, t, m2, used2)
    } else {
        exists|d: EntropyDraw|
            #![trigger s.drawn(d)]
            d.answered() && d.len == writable[0].1 && match d.bytes {
                None => t == s.drawn(d) && m2 == m && used2 == used,
                Some(bytes) => bytes.len() == d.len && rng_fills(
                    s.drawn(d),
                    m.store(writable[0].0 as int, bytes),
                    writable.skip(1),
                    used + writable[0].1,
                    t,
                    m2,
                    used2,
                ),
            }
    }
}

/// The device counts exactly the bytes that it stores, whether the host gave all that was asked for
/// or not. What the host gave before stays on record, and each request that is added is one that
/// the host's source answered so.
pub proof fn law_rng_counts_what_it_stores(
    s: RngView,
    m: MemState,
    writable: Seq<(u64, u32)>,
    used: int,
    t: RngView,
    m2: MemState,
    used2: int,
)
    requires
        rng_fills(s, m, writable, used, t, m2, used2),
    ensures
        used <= used2,
        t.bytes_served == (s.bytes_served + (used2 - used)) % 0x1_0000_0000_0000_0000,
        s.draws.len() <= t.draws.len(),
        t.draws.take(s.draws.len() as int) == s.draws,
        forall|i: int| s.draws.len() <= i < t.draws.len() ==> (#[trigger] t.draws[i]).answered(),
    decreases writable.len(),
{
    assert(s.draws.take(s.draws.len() as int) =~= s.draws);
    if writable.len() > 0 && writable[0].1 == 0 {
        law_rng_counts_what_it_stores(s, m, writable.skip(1), used, t, m2, used2);
    } else if writable.len() > 0 {
        let d = choose|d: EntropyDraw|
            #![trigger s.drawn(d)]
            d.answered() && d.len == writable[0].1 && match d.bytes {
                None => t == s.drawn(d) && m2 == m && used2 == used,
                Some(bytes) => bytes.len() == d.len && rng_fills(
                    s.drawn(d),
                    m.store(writable[0].0 as int, bytes),
                    writable.skip(1),
                    used + writable[0].1,
                    t,
                    m2,
                    used2,
                ),
            };
        let mid = s.drawn(d);
        match d.bytes {
            None => {
                assert(t.draws.take(s.draws.len() as int) =~= s.draws);
            },
            Some(bytes) => {
                law_rng_counts_what_it_stores(
                    mid,
                    m.store(writable[0].0 as int, bytes),
                    writable.skip(1),
                    used + writable[0].1,
                    t,
                    m2,
                    used2,
                );
                assert(t.draws.take(mid.draws.len() as int)[s.draws.len() as int] == d);
                assert(t.draws.take(s.draws.len() as int) =~= s.draws) by {
                    assert forall|i: int| 0 <= i < s.draws.len() implies t.draws[i]
                        == s.draws[i] by {
                        assert(t.draws.take(mid.draws.len() as int)[i] == mid.draws[i]);
                    }
                }
            },
        }
    }
}

/// How a chain may be taken up: its writable buffers are filled, and it is completed with the
/// number of bytes filled.
pub open spec fn rng_step() -> vqueue::ChainStep<RngView> {
    |w: RngView, m: MemState, chain: ChainView, w2: RngView, m2: MemState, answer: Option<u32>|
        answer is Some && rng_fills(w, m, chain.writable, 0, w2, m2, answer->0 as int)
}

impl RngMmioView {
    /// There is memory, and queue 0 is ready with a valid size.
    pub open spec fn can_process(self) -> bool {
        &&& self.ram is Some
        &&& self.queues.len() > 0
        &&& self.queues[0].ready
        &&& self.queues[0].sized()
    }

    pub open spec fn pass_start(self) -> Pass<RngView> {
        Pass {
            pass: PassState::start(
                queue_state::configured(self.processor, self.queues[0]),
                MemState { ram: self.ram->0, marks: queue_state::recorded(self.dirty) },
            ),
            work: self.rng,
        }
    }

    /// The device after a pass that ended in `w`.
    pub open spec fn pass_finished(self, w: Pass<RngView>) -> RngMmioView {
        let config = self.queues[0].config();
        let m = vqueue::used_idx_stored(w.pass.mem, config, w.pass.used);
        RngMmioView {
            processor: Some(
                VirtQueueProcessor {
                    config,
                    last_avail_idx: w.pass.avail,
                    last_used_idx: w.pass.used,
                },
            ),
            rng: w.work,
            ram: Some(m.ram),
            dirty: match self.dirty {
                Some(_) => Some(m.marks),
                None => None,
            },
            regs: if w.pass.done > 0 {
                self.regs.interrupted(VIRTIO_MMIO_INT_VRING)
            } else {
                self.regs
            },
            pending_irqs: if w.pass.done > 0 {
                transport_regs::counted(self.pending_irqs)
            } else {
                self.pending_irqs
            },
            ..self
        }
    }

    /// The device with one more notification counted.
    pub open spec fn notified(self) -> RngMmioView {
        RngMmioView { notify_count: transport_regs::counted(self.notify_count), ..self }
    }

    /// The device after a reset: everything negotiated is gone.
    pub open spec fn reset(self) -> RngMmioView {
        RngMmioView {
            regs: TransportRegs::cleared(),
            queues: Seq::new(self.queues.len(), |i: int| QueueState::cleared()),
            processor: None,
            ..self
        }
    }

    /// The device after a write to a register other than QUEUE_NOTIFY.
    pub open spec fn written(self, off: u64, val: u32) -> RngMmioView {
        if off == reg::STATUS {
            let counted = RngMmioView {
                status_writes: transport_regs::counted(self.status_writes),
                ..self
            };
            if val == 0 {
                counted.reset()
            } else {
                RngMmioView { regs: self.regs.with_status(val), ..counted }
            }
        } else if queue_state::is_queue_register(off) {
            RngMmioView {
                queues: queue_state::queues_written(self.queues, self.regs.queue_sel, off, val),
                ..self
            }
        } else {
            RngMmioView { regs: self.regs.written(off, val, ALL_FEATURES, ALL_FEATURES), ..self }
        }
    }

    /// What the register at `off` reads.
    pub open spec fn register(self, off: u64) -> u32 {
        if off == reg::MAGIC_VALUE {
            MAGIC
        } else if off == reg::VERSION {
            self.version
        } else if off == reg::DEVICE_ID {
            self.device_id
        } else if off == reg::VENDOR_ID {
            self.vendor_id
        } else if off == reg::HOST_FEATURES {
            if self.regs.host_features_sel == 0 {
                RNG_FEATURES_LOW
            } else if self.regs.host_features_sel == 1 {
                RNG_FEATURES_HIGH
            } else {
                0
            }
        } else if off == reg::QUEUE_NUM_MAX {
            MAX_QUEUE_SIZE as u32
        } else if off == reg::STATUS {
            self.regs.status
        } else if off == reg::INTERRUPT_STATUS {
            self.regs.interrupt_status
        } else if queue_state::is_queue_register(off) {
            queue_state::queues_register(self.queues, self.regs.queue_sel, off)
        } else {
            0
        }
    }
}

/// How a kick of queue `queue_idx` may turn the device from `s` into `t`, with `done` chains
/// completed.
pub open spec fn rng_kicked(s: RngMmioView, queue_idx: u32, t: RngMmioView, done: nat) -> bool {
    if queue_idx != 0 || !s.can_process() {
        t == s && done == 0
    } else if !vqueue::queue_usable(s.ram->0, s.queues[0].config()) {
        done == 0 && t == RngMmioView {
            processor: Some(queue_state::configured(s.processor, s.queues[0])),
            ..s
        }
    } else {
        exists|w: Pass<RngView>|
            #[trigger] vqueue::device_pass(
                rng_step(),
                s.queues[0].config(),
                vqueue::avail_ring_idx(s.ram->0, s.queues[0].config()),
                s.pass_start(),
                w,
            ) && t == s.pass_finished(w) && done == w.pass.done
    }
}

/// A device takes back what it saved: every register and every queue. Its place in the rings
/// starts anew.
pub proof fn law_rng_save_restore(a: RngMmioView, b: RngMmioView)
    ensures
        b.restored(a.regs, a.queues).regs == a.regs,
        b.restored(a.regs, a.queues).queues == a.queues,
        b.restored(a.regs, a.queues).processor is None,
        b.restored(a.regs, a.queues).rng == b.rng,
{
}

impl RngMmioView {
    /// The device after it took back registers and queues.
    pub open spec fn restored(self, regs: TransportRegs, queues: Seq<QueueState>) -> RngMmioView {
        RngMmioView { regs, queues, processor: None, ..self }
    }
}

impl VirtioRngMmio {
    pub fn new(irq: u32, rng: VirtioRng) -> (d: Self)
        ensures
            d@ == (RngMmioView {
                irq,
                device_id: DEVICE_ID_RNG,
                vendor_id: 0,
                version: 2,
                regs: TransportRegs::cleared(),
                queues: seq![QueueState::cleared()],
                rng: rng@,
                ram: None,
                dirty: None,
                processor: None,
                pending_irqs: 0,
                notify_count: 0,
                status_writes: 0,
            }),
    {
        let queues = cleared_queues(1);
        assert(queues@ =~= seq![QueueState::cleared()]);
        VirtioRngMmio {
            irq,
            device_id: DEVICE_ID_RNG,
            vendor_id: 0,
            version: 2,
            regs: TransportRegs::new(),
            queues,
            rng,
            guest_mem: None,
            host_dirty: None,
            processor: None,
            pending_irqs: 0,
            notify_count: 0,
            status_writes: 0,
        }
    }

    pub fn current_status(&self) -> (st: u32)
        ensures
            st == self.regs.status,
    {
        self.regs.status
    }

    pub fn is_activated(&self) -> (r: bool)
        ensures
            r == self.regs.activated,
    {
        self.regs.activated
    }

    /// Takes the interrupts that are to be sent to the guest.
    pub fn take_irqs(&mut self) -> (n: u64)
        ensures
            n == old(self).pending_irqs,
            final(self)@ == (RngMmioView { pending_irqs: 0, ..old(self)@ }),
    {
        let n: u64 = self.pending_irqs;
        self.pending_irqs = 0;
        n
    }

    /// Set the guest memory.
    pub fn set_guest_memory(&mut self, mem: GuestMemoryMmap)
        ensures
            final(self)@ == (RngMmioView {
                ram: Some(guest_memory::guest_bytes(mem)),
                ..old(self)@
            }),
    {
        self.guest_mem = Some(mem);
    }

    /// Record what the device writes to guest memory in `dirty`.
    pub fn set_guest_dirty_tracker(&mut self, dirty: SoftwareDirtyBitmap)
        ensures
            final(self)@ == (RngMmioView { dirty: Some(dirty@), ..old(self)@ }),
    {
        self.host_dirty = Some(dirty);
    }

    /// Fills the writable buffers of one chain; returns how many bytes were filled.
    fn fill_chain(
        mem: &mut GuestMemoryMmap,
        dirty: &mut SoftwareDirtyBitmap,
        rng: &mut VirtioRng,
        chain: &DescriptorChain,
    ) -> (used: u32)
        requires
            buffers::all_mapped(guest_memory::guest_bytes(*old(mem)), chain.writable@),
            buffers::total_len(chain.writable@) <= vqueue::MAX_CHAIN_BYTES,
        ensures
            guest_memory::guest_bytes(*final(mem)).dom() == guest_memory::guest_bytes(
                *old(mem),
            ).dom(),
            rng_fills(
                old(rng)@,
                buffers::mem_state(*old(mem), *old(dirty)),
                chain.writable@,
                0,
                final(rng)@,
                buffers::mem_state(*final(mem), *final(dirty)),
                used as int,
            ),
    {
        let ghost rng0 = rng@;
        let ghost m0 = buffers::mem_state(*mem, *dirty);
        let ghost bufs = chain.writable@;
        let mut used: u32 = 0;
        let mut i: usize = 0;
        assert(bufs.skip(0) =~= bufs);
        assert(bufs.take(0) =~= Seq::<(u64, u32)>::empty());
        while i < chain.writable.len()
            invariant
                i <= bufs.len(),
                bufs == chain.writable@,
                buffers::all_mapped(guest_memory::guest_bytes(*mem), bufs),
                guest_memory::guest_bytes(*mem).dom() == m0.ram.dom(),
                buffers::total_len(bufs) <= vqueue::MAX_CHAIN_BYTES,
                used == buffers::total_len(bufs.take(i as int)),
                m0 == buffers::mem_state(*old(mem), *old(dirty)),
                rng0 == old(rng)@,
                forall|rng2: RngView, m2: MemState, used2: int|
                    #[trigger] rng_fills(
                        rng@,
                        buffers::mem_state(*mem, *dirty),
                        bufs.skip(i as int),
                        used as int,
                        rng2,
                        m2,
                        used2,
                    ) ==> rng_fills(rng0, m0, bufs, 0, rng2, m2, used2),
            decreases bufs.len() - i,
        {
            let (addr, len) = chain.writable[i];
            let ghost rng1 = rng@;
            let ghost m1 = buffers::mem_state(*mem, *dirty);
            let ghost used1 = used as int;
            let ghost rest = bufs.skip(i as int);
            proof {
                assert(rest[0] == (addr, len));
                assert(rest.skip(1) =~= bufs.skip(i + 1));
                assert(bufs.take(i + 1).drop_last() =~= bufs.take(i as int));
                assert(bufs.take(i + 1).last() == (addr, len));
                buffers::lemma_total_len_take(bufs, i + 1);
                assert(bufs[i as int] == (addr, len));
            }
            if len > 0 {
                let mut entropy: Vec<u8> = zeros(len as usize);
                match rng.fill_entropy(entropy.as_mut_slice()) {
                    Err(_) => {
                        assert(rng@ == rng1.drawn(EntropyDraw { len: len as nat, bytes: None }));
                        assert(rng_fills(rng1, m1, rest, used1, rng@, m1, used1));
                        return used;
                    },
                    Ok(()) => {},
                }
                assert(entropy@.len() == len);
                let ok = write_slice_mem(mem, dirty, entropy.as_slice(), addr);
                assert(ok);
                used = used + len;
                proof {
                    buffers::lemma_all_mapped_dom(
                        m1.ram,
                        guest_memory::guest_bytes(*mem),
                        bufs,
                    );
                    let m = m1.store(addr as int, entropy@);
                    assert(m == buffers::mem_state(*mem, *dirty));
                    assert forall|rng2: RngView, m2: MemState, used2: int|
                        #[trigger] rng_fills(
                            rng@,
                            m,
                            bufs.skip(i + 1),
                            used as int,
                            rng2,
                            m2,
                            used2,
                        ) implies rng_fills(rng0, m0, bufs, 0, rng2, m2, used2) by {
                        assert(rng@ == rng1.drawn(
                            EntropyDraw { len: len as nat, bytes: Some(entropy@) },
                        ));
                        assert(rng_fills(rng1, m1, rest, used1, rng2, m2, used2));
                    }
                }
            } else {
                proof {
                    assert forall|rng2: RngView, m2: MemState, used2: int|
                        #[trigger] rng_fills(
                            rng@,
                            m1,
                            bufs.skip(i + 1),
                            used as int,
                            rng2,
                            m2,
                            used2,
                        ) implies rng_fills(rng0, m0, bufs, 0, rng2, m2, used2) by {
                        assert(rng_fills(rng1, m1, rest, used1, rng2, m2, used2));
                    }
                }
            }
            i += 1;
        }
        assert(rng_fills(
            rng@,
            buffers::mem_state(*mem, *dirty),
            bufs.skip(i as int),
            used as int,
            rng@,
            buffers::mem_state(*mem, *dirty),
            used as int,
        ));
        used
    }

    /// Works through the queue; returns how many chains were completed.
    fn drain(
        processor: &mut VirtQueueProcessor,
        mem: &mut GuestMemoryMmap,
        dirty: &mut SoftwareDirtyBitmap,
        rng: &mut VirtioRng,
    ) -> (done: usize)
        ensures
            final(processor).config == old(processor).config,
            !vqueue::queue_usable(guest_memory::guest_bytes(*old(mem)), old(processor).config)
                ==> {
                &&& done == 0
                &&& *final(processor) == *old(processor)
                &&& buffers::mem_state(*final(mem), *final(dirty)) == buffers::mem_state(
                    *old(mem),
                    *old(dirty),
                )
                &&& final(rng)@ == old(rng)@
            },
            vqueue::queue_usable(guest_memory::guest_bytes(*old(mem)), old(processor).config)
                ==> exists|w: Pass<RngView>|
                {
                    &&& #[trigger] vqueue::device_pass(
                        rng_step(),
                        old(processor).config,
                        vqueue::avail_ring_idx(
                            guest_memory::guest_bytes(*old(mem)),
                            old(processor).config,
                        ),
                        Pass {
                            pass: PassState::start(
                                *old(processor),
                                buffers::mem_state(*old(mem), *old(dirty)),
                            ),
                            work: old(rng)@,
                        },
                        w,
                    )
                    &&& final(processor).last_avail_idx == w.pass.avail
                    &&& final(processor).last_used_idx == w.pass.used
                    &&& done == w.pass.done
                    &&& buffers::mem_state(*final(mem), *final(dirty)) == vqueue::used_idx_stored(
                        w.pass.mem,
                        old(processor).config,
                        w.pass.used,
                    )
                    &&& final(rng)@ == w.work
                },
    {
        let target: u16 = match processor.available(mem) {
            Some(idx) => idx,
            None => {
                return 0;
            },
        };
        let ghost config = processor.config;
        let ghost step = rng_step();
        let ghost s0 = Pass {
            pass: PassState::start(*processor, buffers::mem_state(*mem, *dirty)),
            work: rng@,
        };
        let ghost mut s = s0;
        let mut done: usize = 0;
        loop
            invariant_except_break
                done + vqueue::idx_distance(s.pass.avail, target) <= 0xffff,
                forall|t: Pass<RngView>|
                    #[trigger] vqueue::device_pass(step, config, target, s, t)
                        ==> vqueue::device_pass(step, config, target, s0, t),
            invariant
                step == rng_step(),
                processor.config == config,
                vqueue::queue_usable(guest_memory::guest_bytes(*mem), config),
                s.pass.avail == processor.last_avail_idx,
                s.pass.used == processor.last_used_idx,
                s.pass.mem == buffers::mem_state(*mem, *dirty),
                s.pass.done == done,
                s.work == rng@,
            ensures
                vqueue::device_pass(step, config, target, s0, s),
            decreases vqueue::idx_distance(processor.last_avail_idx, target),
        {
            let ghost k = s.skipped(config, target);
            proof {
                vqueue::lemma_skip_rejected(s.pass.mem.ram, config, s.pass.avail, target);
            }
            match processor.next_chain(mem, target) {
                None => {
                    assert(vqueue::device_pass(step, config, target, s, k));
                    proof {
                        s = k;
                    }
                    break;
                },
                Some((head, chain)) => {
                    let ghost before = guest_memory::guest_bytes(*mem);
                    proof {
                        vqueue::lemma_chain_buffers(before, config, head);
                    }
                    let used: u32 = Self::fill_chain(mem, dirty, rng, &chain);
                    let ghost m = buffers::mem_state(*mem, *dirty);
                    let ghost w = rng@;
                    proof {
                        assert(step(k.work, k.pass.mem, chain@, w, m, Some(used)));
                        vqueue::lemma_usable_dom(before, m.ram, config);
                    }
                    processor.complete_chain(mem, dirty, head, used);
                    proof {
                        vqueue::lemma_usable_dom(
                            m.ram,
                            guest_memory::guest_bytes(*mem),
                            config,
                        );
                        let next = k.worked(w, m).completed(config, head, used);
                        assert forall|t: Pass<RngView>|
                            #[trigger] vqueue::device_pass(step, config, target, next, t) implies
                            vqueue::device_pass(step, config, target, s0, t) by {
                            assert(vqueue::device_pass(step, config, target, s, t));
                        }
                        s = next;
                    }
                    done = done + 1;
                },
            }
        }
        processor.publish_used(mem, dirty);
        done
    }

    /// Process queue `queue_idx` when the guest kicks it; returns how many chains were completed.
    pub fn process_queue(&mut self, queue_idx: u32) -> (done: usize)
        ensures
            rng_kicked(old(self)@, queue_idx, final(self)@, done as nat),
    {
        if queue_idx != 0 || self.queues.len() == 0 {
            return 0;
        }
        let q = self.queues[QUEUE_RNG];
        if !q.ready || !q.valid_size() {
            return 0;
        }
        match self.guest_mem.take() {
            None => 0,
            Some(mem) => {
                let ghost config = q.config();
                let mut mem = mem;
                let mut processor = configure(self.processor.take(), &q);
                let has_tracker = self.host_dirty.is_some();
                let mut dirty = match self.host_dirty.take() {
                    Some(d) => d,
                    None => SoftwareDirtyBitmap::new(),
                };
                let done: usize = Self::drain(&mut processor, &mut mem, &mut dirty, &mut self.rng);
                self.guest_mem = Some(mem);
                if has_tracker {
                    self.host_dirty = Some(dirty);
                }
                self.processor = Some(processor);
                if done > 0 {
                    self.regs.raise(VIRTIO_MMIO_INT_VRING);
                    self.pending_irqs = self.pending_irqs.wrapping_add(1);
                }
                proof {
                    let s = old(self)@;
                    if vqueue::queue_usable(s.ram->0, config) {
                        let w = choose|w: Pass<RngView>|
                            {
                                &&& #[trigger] vqueue::device_pass(
                                    rng_step(),
                                    config,
                                    vqueue::avail_ring_idx(s.ram->0, config),
                                    s.pass_start(),
                                    w,
                                )
                                &&& processor.last_avail_idx == w.pass.avail
                                &&& processor.last_used_idx == w.pass.used
                                &&& done == w.pass.done
                                &&& buffers::mem_state(mem, dirty) == vqueue::used_idx_stored(
                                    w.pass.mem,
                                    config,
                                    w.pass.used,
                                )
                                &&& self.rng@ == w.work
                            };
                        assert(self@ =~= s.pass_finished(w));
                    } else {
                        assert(self@ =~= RngMmioView {
                            processor: Some(queue_state::configured(s.processor, s.queues[0])),
                            ..s
                        });
                    }
                }
                done
            },
        }
    }
}

impl Persist for VirtioRngMmio {
    type State = VirtioRngMmioState;

    fn save(&self) -> (s: VirtioRngMmioState)
        ensures
            s.regs == self.regs,
            s.queues@ == self.queues@,
    {
        VirtioRngMmioState { regs: self.regs, queues: copy_queues(&self.queues) }
    }

    fn restore(&mut self, state: VirtioRngMmioState)
        ensures
            final(self)@ == old(self)@.restored(state.regs, state.queues@),
    {
        self.regs = state.regs;
        self.queues = state.queues;
        self.processor = None;
    }
}

impl MmioDevice for VirtioRngMmio {
    open spec fn reads(&self, off: u64, len: u8, r: MmioReadResult) -> bool {
        r == Ok::<u64, MmioError>(self@.register(off) as u64)
    }

    open spec fn writes(
        &self,
        off: u64,
        val: u64,
        len: u8,
        post: &Self,
        r: MmioWriteResult,
    ) -> bool {
        &&& r == Ok::<(), MmioError>(())
        &&& if off == reg::QUEUE_NOTIFY {
            exists|done: nat|
                #[trigger] rng_kicked(self@.notified(), val as u32, post@, done)
        } else {
            post@ == self@.written(off, val as u32)
        }
    }

    open spec fn inv(&self) -> bool {
        true
    }

    fn mmio_read(&self, off: u64, _len: u8) -> (r: MmioReadResult) {
        let val: u32 = if off == reg::MAGIC_VALUE {
            MAGIC
        } else if off == reg::VERSION {
            self.version
        } else if off == reg::DEVICE_ID {
            self.device_id
        } else if off == reg::VENDOR_ID {
            self.vendor_id
        } else if off == reg::HOST_FEATURES {
            if self.regs.host_features_sel == 0 {
                RNG_FEATURES_LOW
            } else if self.regs.host_features_sel == 1 {
                RNG_FEATURES_HIGH
            } else {
                0
            }
        } else if off == reg::QUEUE_NUM_MAX {
            MAX_QUEUE_SIZE as u32
        } else if off == reg::STATUS {
            self.regs.status
        } else if off == reg::INTERRUPT_STATUS {
            self.regs.interrupt_status
        } else if is_queue_reg(off) {
            read_queue_register(&self.queues, self.regs.queue_sel, off)
        } else {
            0
        };
        Ok(val as u64)
    }

    fn mmio_write(&mut self, off: u64, val: u64, _len: u8) -> (r: MmioWriteResult) {
        let val: u32 = val as u32;
        if off == reg::STATUS {
            self.status_writes = self.status_writes.wrapping_add(1);
            if val == 0 {
                self.regs = TransportRegs::new();
                self.queues = cleared_queues(self.queues.len());
                self.processor = None;
            } else {
                self.regs.set_status(val);
            }
        } else if off == reg::QUEUE_NOTIFY {
            self.notify_count = self.notify_count.wrapping_add(1);
            let _done: usize = self.process_queue(val);
        } else if is_queue_reg(off) {
            write_queue_register(&mut self.queues, self.regs.queue_sel, off, val);
        } else {
            self.regs.write(off, val, ALL_FEATURES, ALL_FEATURES);
        }
        Ok(())
    }
}

} // verus!
