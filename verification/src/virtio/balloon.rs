//! Virtio 1.x traditional memory-balloon device over virtio-mmio.
//!
//! The guest supplies 4 KiB PFNs on inflate/deflate queues. Inflate validates every PFN before
//! releasing any host pages, then coalesces ranges and asks the memory backend for
//! zero-on-refault discard semantics. This matters for lazy restores, where a plain discard would
//! resurrect old snapshot bytes.
use crate::bus::{MmioDevice, MmioError, MmioReadResult, MmioWriteResult};
use crate::dirty::SoftwareDirtyBitmap;
use crate::guest_memory;
use crate::persist::Persist;
use crate::virtio::blk_transport::status_bits;
use crate::virtio::buffers::{self, MemState};
use crate::virtio::queue_state::{
    self, cleared_queues, configure, copy_queues, is_queue_reg, read_queue_register,
    save_processor, write_queue_register, QueueState,
};
use crate::virtio::regs::{reg, MAGIC};
use crate::virtio::transport_regs::{self, TransportRegs, VIRTIO_MMIO_INT_VRING};
use crate::virtio::vqueue::{
    self, ChainView, Pass, PassState, VirtQueueProcessor, VirtQueueProcessorState, MAX_QUEUE_SIZE,
};
use vm_memory::GuestMemoryMmap;
use vstd::prelude::*;

pub mod laws;
pub mod pages;

use pages::{inflate, parse_pfns, PAGE_SIZE};

verus! {

pub const DEVICE_ID_BALLOON: u32 = 5;

pub const QUEUE_INFLATE: usize = 0;

pub const QUEUE_DEFLATE: usize = 1;

pub const QUEUE_COUNT: usize = 2;

pub const FEATURES_LOW: u32 = 0;

/// VIRTIO_F_VERSION_1 (bit 32).
pub const FEATURES_HIGH: u32 = 1;

pub const INT_CONFIG: u32 = 2;

/// Where the driver reports how many pages it has given up.
pub const CONFIG_ACTUAL: u64 = 0x104;

/// Snapshot state of a balloon device.
#[derive(Debug, Clone, PartialEq, Eq)]
pub struct VirtioBalloonMmioState {
    pub regs: TransportRegs,
    pub queues: Vec<QueueState>,
    pub processors: Vec<Option<VirtQueueProcessorState>>,
    pub config_generation: u32,
    pub target_pages: u32,
    pub actual_pages: u32,
}

/// How many pages were given back and taken again, and how many requests were refused.
#[derive(Debug, Copy, Clone, PartialEq, Eq, Structural)]
pub struct BalloonCounts {
    pub inflate_pages: u64,
    pub deflate_pages: u64,
    pub rejected_pfns: u64,
}

/// A balloon device. `DISCARD` gives a range of guest memory back to the host.
pub struct VirtioBalloonMmio<DISCARD> {
    pub irq: u32,
    pub regs: TransportRegs,
    pub queues: Vec<QueueState>,
    pub processors: Vec<Option<VirtQueueProcessor>>,
    pub memory: Option<GuestMemoryMmap>,
    pub size_bytes: u64,
    pub host_dirty: SoftwareDirtyBitmap,
    pub discard: DISCARD,
    pub config_generation: u32,
    pub target_pages: u32,
    pub actual_pages: u32,
    pub counts: BalloonCounts,
    /// Interrupts that the guest is still to be sent.
    pub pending_irqs: u64,
}

/// The state of a [`VirtioBalloonMmio`].
#[verifier::ext_equal]
pub struct BalloonView {
    pub irq: u32,
    pub regs: TransportRegs,
    pub queues: Seq<QueueState>,
    pub processors: Seq<Option<VirtQueueProcessor>>,
    pub ram: Option<Map<int, u8>>,
    pub size_bytes: u64,
    pub dirty: Seq<(u64, u64)>,
    pub config_generation: u32,
    pub target_pages: u32,
    pub actual_pages: u32,
    pub counts: BalloonCounts,
    pub pending_irqs: u64,
}

impl<DISCARD> View for VirtioBalloonMmio<DISCARD> {
    type V = BalloonView;

    open spec fn view(&self) -> BalloonView {
        BalloonView {
            irq: self.irq,
            regs: self.regs,
            queues: self.queues@,
            processors: self.processors@,
            ram: match self.memory {
                Some(m) => Some(guest_memory::guest_bytes(m)),
                None => None,
            },
            size_bytes: self.size_bytes,
            dirty: self.host_dirty@,
            config_generation: self.config_generation,
            target_pages: self.target_pages,
            actual_pages: self.actual_pages,
            counts: self.counts,
            pending_irqs: self.pending_irqs,
        }
    }
}

impl BalloonCounts {
    pub open spec fn rejected(self) -> BalloonCounts {
        BalloonCounts { rejected_pfns: transport_regs::counted(self.rejected_pfns), ..self }
    }

    pub open spec fn inflated(self, n: u64) -> BalloonCounts {
        BalloonCounts { inflate_pages: transport_regs::counted_by(self.inflate_pages, n), ..self }
    }

    pub open spec fn deflated(self, n: u64) -> BalloonCounts {
        BalloonCounts { deflate_pages: transport_regs::counted_by(self.deflate_pages, n), ..self }
    }
}

/// How giving back the pages of one request may go.
pub open spec fn request_inflated<
    DISCARD: Fn(GuestMemoryMmap, u64, u64) -> (GuestMemoryMmap, bool),
>(
    discard: DISCARD,
    pfns: Seq<u32>,
    w: BalloonCounts,
    m: MemState,
    w2: BalloonCounts,
    m2: MemState,
) -> bool {
    &&& m2.marks == m.marks
    &&& {
        ||| pages::inflates(discard, pfns, m.ram, m2.ram, true) && w2 == w.inflated(
            pfns.to_set().len() as u64,
        )
        ||| pages::inflates(discard, pfns, m.ram, m2.ram, false) && w2 == w.rejected()
    }
}

/// How one request may be served on the inflate queue or on the deflate queue. A malformed
/// request is counted and releases nothing.
pub open spec fn request_served<
    DISCARD: Fn(GuestMemoryMmap, u64, u64) -> (GuestMemoryMmap, bool),
>(
    discard: DISCARD,
    size_bytes: u64,
    queue: int,
    w: BalloonCounts,
    m: MemState,
    chain: ChainView,
    w2: BalloonCounts,
    m2: MemState,
) -> bool {
    match pages::parsed_pfns(m.ram, size_bytes, chain.readable, chain.writable) {
        None => w2 == w.rejected() && m2 == m,
        Some(pfns) => if queue == QUEUE_INFLATE {
            request_inflated(discard, pfns, w, m, w2, m2)
        } else {
            w2 == w.deflated(pfns.len() as u64) && m2 == m
        },
    }
}

/// How a chain may be taken up: as a request, and completed with no bytes written.
pub open spec fn balloon_step<
    DISCARD: Fn(GuestMemoryMmap, u64, u64) -> (GuestMemoryMmap, bool),
>(discard: DISCARD, size_bytes: u64, queue: int) -> vqueue::ChainStep<BalloonCounts> {
    |
        w: BalloonCounts,
        m: MemState,
        chain: ChainView,
        w2: BalloonCounts,
        m2: MemState,
        answer: Option<u32>,
    |
        answer == Some(0u32) && request_served(discard, size_bytes, queue, w, m, chain, w2, m2)
}

/// The processor that takes up saved positions on queue `i`, if that queue is in use.
pub open spec fn resumed_processor(
    queues: Seq<QueueState>,
    i: int,
    p: Option<VirtQueueProcessorState>,
) -> Option<VirtQueueProcessor> {
    if i < queues.len() && queues[i].ready && queues[i].sized() {
        queue_state::restored_processor(queues, i, p)
    } else {
        None
    }
}

/// The value of a configuration generation after one more change.
pub open spec fn next_generation(n: u32) -> u32 {
    if n == u32::MAX {
        0
    } else {
        (n + 1) as u32
    }
}

impl BalloonView {
    /// Guest memory has this many pages.
    pub open spec fn pages_fit(self, n: u32) -> bool {
        n <= self.size_bytes / 4096
    }

    /// Queue `i` is ready with a valid size.
    pub open spec fn can_process(self, i: int) -> bool {
        &&& i < QUEUE_COUNT
        &&& i < self.queues.len()
        &&& self.queues[i].ready
        &&& self.queues[i].sized()
    }

    /// The device with an interrupt raised.
    pub open spec fn interrupted(self, kind: u32) -> BalloonView {
        BalloonView {
            regs: self.regs.interrupted(kind),
            pending_irqs: transport_regs::counted(self.pending_irqs),
            ..self
        }
    }

    pub open spec fn retargeted(self, n: u32) -> BalloonView {
        BalloonView {
            target_pages: n,
            config_generation: next_generation(self.config_generation),
            ..self
        }.interrupted(INT_CONFIG)
    }

    /// The device after a reset: everything negotiated is gone.
    pub open spec fn reset(self) -> BalloonView {
        BalloonView {
            regs: TransportRegs::cleared(),
            queues: Seq::new(self.queues.len(), |i: int| QueueState::cleared()),
            processors: Seq::new(QUEUE_COUNT as nat, |i: int| None),
            ..self
        }
    }

    /// What the device saves besides its registers and queues.
    pub open spec fn saved_processors(self) -> Seq<Option<VirtQueueProcessorState>> {
        Seq::new(
            self.processors.len(),
            |i: int| queue_state::saved_processor(self.processors[i]),
        )
    }

    /// The device after it took back a saved state.
    pub open spec fn restored(
        self,
        regs: TransportRegs,
        queues: Seq<QueueState>,
        processors: Seq<Option<VirtQueueProcessorState>>,
        config_generation: u32,
        target_pages: u32,
        actual_pages: u32,
    ) -> BalloonView {
        BalloonView {
            regs,
            queues,
            processors: Seq::new(
                processors.len(),
                |i: int| resumed_processor(queues, i, processors[i]),
            ),
            config_generation,
            target_pages,
            actual_pages,
            ..self
        }
    }

    /// The state before a pass over queue `i`.
    pub open spec fn pass_start(self, i: int) -> Pass<BalloonCounts> {
        Pass {
            pass: PassState::start(
                queue_state::configured(self.processors[i], self.queues[i]),
                MemState { ram: self.ram->0, marks: self.dirty },
            ),
            work: self.counts,
        }
    }

    /// The device after a pass over queue `i` that ended in `w`.
    pub open spec fn pass_finished(self, i: int, w: Pass<BalloonCounts>) -> BalloonView {
        let config = self.queues[i].config();
        let m = vqueue::used_idx_stored(w.pass.mem, config, w.pass.used);
        let after = BalloonView {
            processors: self.processors.update(
                i,
                Some(
                    VirtQueueProcessor {
                        config,
                        last_avail_idx: w.pass.avail,
                        last_used_idx: w.pass.used,
                    },
                ),
            ),
            ram: Some(m.ram),
            dirty: m.marks,
            counts: w.work,
            ..self
        };
        if w.pass.done > 0 {
            after.interrupted(VIRTIO_MMIO_INT_VRING)
        } else {
            after
        }
    }

    /// The device after a write to a register other than QUEUE_NOTIFY.
    pub open spec fn written(self, off: u64, val: u32) -> BalloonView {
        if off == reg::STATUS {
            if val == 0 {
                self.reset()
            } else {
                BalloonView {
                    regs: TransportRegs {
                        status: val,
                        activated: val & status_bits::DRIVER_OK != 0,
                        ..self.regs
                    },
                    ..self
                }
            }
        } else if queue_state::is_queue_register(off) {
            BalloonView {
                queues: queue_state::queues_written(self.queues, self.regs.queue_sel, off, val),
                ..self
            }
        } else if off == CONFIG_ACTUAL {
            if self.pages_fit(val) {
                BalloonView { actual_pages: val, ..self }
            } else {
                BalloonView { counts: self.counts.rejected(), ..self }
            }
        } else {
            BalloonView { regs: self.regs.written(off, val, FEATURES_LOW, FEATURES_HIGH), ..self }
        }
    }

    /// What the register at `off` reads.
    pub open spec fn register(self, off: u64) -> u32 {
        if off == reg::MAGIC_VALUE {
            MAGIC
        } else if off == reg::VERSION {
            2
        } else if off == reg::DEVICE_ID {
            DEVICE_ID_BALLOON
        } else if off == reg::HOST_FEATURES {
            if self.regs.host_features_sel == 0 {
                FEATURES_LOW
            } else if self.regs.host_features_sel == 1 {
                FEATURES_HIGH
            } else {
                0
            }
        } else if off == reg::QUEUE_NUM_MAX {
            if self.regs.queue_sel < QUEUE_COUNT {
                MAX_QUEUE_SIZE as u32
            } else {
                0
            }
        } else if off == reg::STATUS {
            self.regs.status
        } else if off == reg::INTERRUPT_STATUS {
            self.regs.interrupt_status
        } else if off == reg::CONFIG_GENERATION {
            self.config_generation
        } else if off == reg::CONFIG {
            self.target_pages
        } else if off == CONFIG_ACTUAL {
            self.actual_pages
        } else if queue_state::is_queue_register(off) {
            queue_state::queues_register(self.queues, self.regs.queue_sel, off)
        } else {
            0
        }
    }
}

/// How a kick of queue `i` may turn the device from `s` into `t`, with `done` requests completed.
pub open spec fn balloon_kicked<
    DISCARD: Fn(GuestMemoryMmap, u64, u64) -> (GuestMemoryMmap, bool),
>(discard: DISCARD, s: BalloonView, i: int, t: BalloonView, done: nat) -> bool {
    if !s.can_process(i) {
        t == s && done == 0
    } else if !vqueue::queue_usable(s.ram->0, s.queues[i].config()) {
        done == 0 && t == BalloonView {
            processors: s.processors.update(
                i,
                Some(queue_state::configured(s.processors[i], s.queues[i])),
            ),
            ..s
        }
    } else {
        exists|w: Pass<BalloonCounts>|
            #[trigger] vqueue::device_pass(
                balloon_step(discard, s.size_bytes, i),
                s.queues[i].config(),
                vqueue::avail_ring_idx(s.ram->0, s.queues[i].config()),
                s.pass_start(i),
                w,
            ) && t == s.pass_finished(i, w) && done == w.pass.done
    }
}

impl<DISCARD> VirtioBalloonMmio<DISCARD> {
    /// A device for `size_bytes` bytes of guest memory, or an error where the target is more
    /// than that.
    pub fn new(
        irq: u32,
        memory: GuestMemoryMmap,
        size_bytes: u64,
        discard: DISCARD,
        target_pages: u32,
    ) -> (r: Result<Self, String>)
        ensures
            r is Ok == (target_pages <= size_bytes / 4096),
            r matches Ok(d) ==> d.discard == discard && d@ == (BalloonView {
                irq,
                regs: TransportRegs::cleared(),
                queues: Seq::new(QUEUE_COUNT as nat, |i: int| QueueState::cleared()),
                processors: Seq::new(QUEUE_COUNT as nat, |i: int| None),
                ram: Some(guest_memory::guest_bytes(memory)),
                size_bytes,
                dirty: Seq::empty(),
                config_generation: 0,
                target_pages,
                actual_pages: 0,
                counts: (BalloonCounts { inflate_pages: 0, deflate_pages: 0, rejected_pfns: 0 }),
                pending_irqs: 0,
            }),
            r matches Err(e) ==> e@ == "balloon target exceeds guest memory"@,
    {
        if target_pages as u64 > size_bytes / PAGE_SIZE {
            return Err("balloon target exceeds guest memory".to_owned());
        }
        let d = VirtioBalloonMmio {
            irq,
            regs: TransportRegs::new(),
            queues: cleared_queues(QUEUE_COUNT),
            processors: idle_processors(),
            memory: Some(memory),
            size_bytes,
            host_dirty: SoftwareDirtyBitmap::new(),
            discard,
            config_generation: 0,
            target_pages,
            actual_pages: 0,
            counts: BalloonCounts { inflate_pages: 0, deflate_pages: 0, rejected_pfns: 0 },
            pending_irqs: 0,
        };
        Ok(d)
    }

    pub fn target_pages(&self) -> (n: u32)
        ensures
            n == self.target_pages,
    {
        self.target_pages
    }

    pub fn actual_pages(&self) -> (n: u32)
        ensures
            n == self.actual_pages,
    {
        self.actual_pages
    }

    pub fn has_pending_interrupt(&self) -> (r: bool)
        ensures
            r == (self.regs.interrupt_status != 0),
    {
        self.regs.interrupt_status != 0
    }

    /// Takes the interrupts that are to be sent to the guest.
    pub fn take_irqs(&mut self) -> (n: u64)
        ensures
            n == old(self).pending_irqs,
            final(self)@ == (BalloonView { pending_irqs: 0, ..old(self)@ }),
            final(self).discard == old(self).discard,
    {
        let n: u64 = self.pending_irqs;
        self.pending_irqs = 0;
        n
    }

    fn trigger_interrupt(&mut self, kind: u32)
        ensures
            final(self)@ == old(self)@.interrupted(kind),
            final(self).discard == old(self).discard,
            final(self).memory == old(self).memory,
    {
        self.regs.raise(kind);
        self.pending_irqs = self.pending_irqs.wrapping_add(1);
    }

    /// Sets how many pages the guest is asked to give up, or fails where guest memory does not
    /// have as many.
    pub fn set_target_pages(&mut self, pages: u32) -> (r: Result<(), String>)
        ensures
            r is Ok == old(self)@.pages_fit(pages),
            r matches Err(e) ==> e@ == "balloon target exceeds guest memory"@,
            final(self)@ == (if old(self)@.pages_fit(pages) {
                old(self)@.retargeted(pages)
            } else {
                old(self)@
            }),
            final(self).discard == old(self).discard,
    {
        if pages as u64 > self.size_bytes / PAGE_SIZE {
            return Err("balloon target exceeds guest memory".to_owned());
        }
        self.target_pages = pages;
        self.config_generation = self.config_generation.wrapping_add(1);
        self.trigger_interrupt(INT_CONFIG);
        Ok(())
    }

    fn reset(&mut self)
        ensures
            final(self)@ == old(self)@.reset(),
            final(self).discard == old(self).discard,
    {
        self.regs = TransportRegs::new();
        self.queues = cleared_queues(self.queues.len());
        self.processors = idle_processors();
    }
}

/// Processors that have not started.
fn idle_processors() -> (r: Vec<Option<VirtQueueProcessor>>)
    ensures
        r@ == Seq::new(QUEUE_COUNT as nat, |i: int| None::<VirtQueueProcessor>),
{
    let mut r: Vec<Option<VirtQueueProcessor>> = Vec::new();
    r.push(None);
    r.push(None);
    r
}

impl<
    DISCARD: Fn(GuestMemoryMmap, u64, u64) -> (GuestMemoryMmap, bool),
> VirtioBalloonMmio<DISCARD> {
    /// The device has its memory and a processor for each queue, and discarding keeps memory
    /// mapped.
    pub open spec fn wf(&self) -> bool {
        &&& self.memory is Some
        &&& self.processors@.len() >= QUEUE_COUNT
        &&& pages::discard_keeps_mapping(self.discard)
    }

    /// Works through a queue; returns the memory and how many requests were completed.
    fn drain(
        discard: &DISCARD,
        size_bytes: u64,
        queue: usize,
        processor: &mut VirtQueueProcessor,
        mem: GuestMemoryMmap,
        dirty: &mut SoftwareDirtyBitmap,
        counts: &mut BalloonCounts,
    ) -> (r: (GuestMemoryMmap, usize))
        requires
            pages::discard_keeps_mapping(*discard),
        ensures
            final(processor).config == old(processor).config,
            !vqueue::queue_usable(guest_memory::guest_bytes(mem), old(processor).config) ==> {
                &&& r.1 == 0
                &&& *final(processor) == *old(processor)
                &&& buffers::mem_state(r.0, *final(dirty)) == buffers::mem_state(mem, *old(dirty))
                &&& *final(counts) == *old(counts)
            },
            vqueue::queue_usable(guest_memory::guest_bytes(mem), old(processor).config)
                ==> exists|w: Pass<BalloonCounts>|
                {
                    &&& #[trigger] vqueue::device_pass(
                        balloon_step(*discard, size_bytes, queue as int),
                        old(processor).config,
                        vqueue::avail_ring_idx(
                            guest_memory::guest_bytes(mem),
                            old(processor).config,
                        ),
                        Pass {
                            pass: PassState::start(
                                *old(processor),
                                buffers::mem_state(mem, *old(dirty)),
                            ),
                            work: *old(counts),
                        },
                        w,
                    )
                    &&& final(processor).last_avail_idx == w.pass.avail
                    &&& final(processor).last_used_idx == w.pass.used
                    &&& r.1 == w.pass.done
                    &&& buffers::mem_state(r.0, *final(dirty)) == vqueue::used_idx_stored(
                        w.pass.mem,
                        old(processor).config,
                        w.pass.used,
                    )
                    &&& *final(counts) == w.work
                },
    {
        let mut cur = mem;
        let target: u16 = match processor.available(&cur) {
            Some(idx) => idx,
            None => {
                return (cur, 0);
            },
        };
        let ghost config = processor.config;
        let ghost step = balloon_step(*discard, size_bytes, queue as int);
        let ghost s0 = Pass {
            pass: PassState::start(*processor, buffers::mem_state(cur, *dirty)),
            work: *counts,
        };
        let ghost mut s = s0;
        let mut done: usize = 0;
        loop
            invariant_except_break
                done + vqueue::idx_distance(s.pass.avail, target) <= 0xffff,
                forall|t: Pass<BalloonCounts>|
                    #[trigger] vqueue::device_pass(step, config, target, s, t)
                        ==> vqueue::device_pass(step, config, target, s0, t),
            invariant
                step == balloon_step(*discard, size_bytes, queue as int),
                pages::discard_keeps_mapping(*discard),
                processor.config == config,
                vqueue::queue_usable(guest_memory::guest_bytes(cur), config),
                s.pass.avail == processor.last_avail_idx,
                s.pass.used == processor.last_used_idx,
                s.pass.mem == buffers::mem_state(cur, *dirty),
                s.pass.done == done,
                s.work == *counts,
            ensures
                vqueue::device_pass(step, config, target, s0, s),
            decreases vqueue::idx_distance(processor.last_avail_idx, target),
        {
            let ghost k = s.skipped(config, target);
            proof {
                vqueue::lemma_skip_rejected(s.pass.mem.ram, config, s.pass.avail, target);
            }
            match processor.next_chain(&cur, target) {
                None => {
                    assert(vqueue::device_pass(step, config, target, s, k));
                    proof {
                        s = k;
                    }
                    break;
                },
                Some((head, chain)) => {
                    let ghost before = guest_memory::guest_bytes(cur);
                    match parse_pfns(
                        &cur,
                        size_bytes,
                        chain.readable.as_slice(),
                        chain.writable.as_slice(),
                    ) {
                        None => {
                            counts.rejected_pfns = counts.rejected_pfns.wrapping_add(1);
                        },
                        Some(pfns) => {
                            if queue == QUEUE_INFLATE {
                                let (after, n) = inflate(discard, cur, &pfns);
                                cur = after;
                                match n {
                                    Some(n) => {
                                        counts.inflate_pages = counts.inflate_pages.wrapping_add(n);
                                    },
                                    None => {
                                        counts.rejected_pfns = counts.rejected_pfns.wrapping_add(1);
                                    },
                                }
                            } else {
                                counts.deflate_pages = counts.deflate_pages.wrapping_add(
                                    pfns.len() as u64,
                                );
                            }
                        },
                    }
                    let ghost m = buffers::mem_state(cur, *dirty);
                    let ghost w = *counts;
                    proof {
                        assert(request_served(
                            *discard,
                            size_bytes,
                            queue as int,
                            k.work,
                            k.pass.mem,
                            chain@,
                            w,
                            m,
                        ));
                        assert(step(k.work, k.pass.mem, chain@, w, m, Some(0u32)));
                        vqueue::lemma_usable_dom(before, m.ram, config);
                    }
                    processor.complete_chain(&mut cur, dirty, head, 0);
                    proof {
                        vqueue::lemma_usable_dom(m.ram, guest_memory::guest_bytes(cur), config);
                        let next = k.worked(w, m).completed(config, head, 0u32);
                        assert forall|t: Pass<BalloonCounts>|
                            #[trigger] vqueue::device_pass(step, config, target, next, t) implies
                            vqueue::device_pass(step, config, target, s0, t) by {
                            let c = vqueue::chain_from(
                                k.pass.mem.ram,
                                config,
                                vqueue::avail_head(k.pass.mem.ram, config, k.pass.avail),
                            )->0;
                            assert(step(k.work, k.pass.mem, c, w, m, Some(0u32)));
                            assert(vqueue::device_pass(step, config, target, s, t));
                        }
                        s = next;
                    }
                    done = done + 1;
                },
            }
        }
        processor.publish_used(&mut cur, dirty);
        (cur, done)
    }

    /// Serves the requests on queue `queue_index`; returns how many were completed.
    pub fn process_queue(&mut self, queue_index: usize) -> (done: usize)
        requires
            old(self).wf(),
        ensures
            final(self).wf(),
            final(self).discard == old(self).discard,
            balloon_kicked(
                old(self).discard,
                old(self)@,
                queue_index as int,
                final(self)@,
                done as nat,
            ),
    {
        if queue_index >= QUEUE_COUNT || queue_index >= self.queues.len() {
            return 0;
        }
        let q = self.queues[queue_index];
        if !q.ready || !q.valid_size() {
            return 0;
        }
        match self.memory.take() {
            None => 0,
            Some(mem) => {
                let ghost i = queue_index as int;
                let ghost config = q.config();
                let saved = self.processors[queue_index].take();
                let mut processor = configure(saved, &q);
                let (mem, done) = Self::drain(
                    &self.discard,
                    self.size_bytes,
                    queue_index,
                    &mut processor,
                    mem,
                    &mut self.host_dirty,
                    &mut self.counts,
                );
                self.memory = Some(mem);
                self.processors.set(queue_index, Some(processor));
                let ghost mid = *self;
                if done > 0 {
                    self.trigger_interrupt(VIRTIO_MMIO_INT_VRING);
                }
                proof {
                    let s = old(self)@;
                    if vqueue::queue_usable(s.ram->0, config) {
                        let w = choose|w: Pass<BalloonCounts>|
                            {
                                &&& #[trigger] vqueue::device_pass(
                                    balloon_step(old(self).discard, s.size_bytes, i),
                                    config,
                                    vqueue::avail_ring_idx(s.ram->0, config),
                                    s.pass_start(i),
                                    w,
                                )
                                &&& processor.last_avail_idx == w.pass.avail
                                &&& processor.last_used_idx == w.pass.used
                                &&& done == w.pass.done
                                &&& buffers::mem_state(mem, mid.host_dirty)
                                    == vqueue::used_idx_stored(w.pass.mem, config, w.pass.used)
                                &&& mid.counts == w.work
                            };
                        assert(self@ =~= s.pass_finished(i, w));
                    } else {
                        assert(self@ =~= BalloonView {
                            processors: s.processors.update(
                                i,
                                Some(queue_state::configured(s.processors[i], s.queues[i])),
                            ),
                            ..s
                        });
                    }
                }
                done
            },
        }
    }
}

impl<DISCARD> Persist for VirtioBalloonMmio<DISCARD> {
    type State = VirtioBalloonMmioState;

    fn save(&self) -> (s: VirtioBalloonMmioState)
        ensures
            s.regs == self.regs,
            s.queues@ == self.queues@,
            s.processors@ == self@.saved_processors(),
            s.config_generation == self.config_generation,
            s.target_pages == self.target_pages,
            s.actual_pages == self.actual_pages,
    {
        let mut processors: Vec<Option<VirtQueueProcessorState>> = Vec::new();
        let mut i: usize = 0;
        while i < self.processors.len()
            invariant
                i <= self.processors@.len(),
                processors@ =~= self@.saved_processors().take(i as int),
            decreases self.processors@.len() - i,
        {
            processors.push(save_processor(&self.processors[i]));
            i += 1;
        }
        VirtioBalloonMmioState {
            regs: self.regs,
            queues: copy_queues(&self.queues),
            processors,
            config_generation: self.config_generation,
            target_pages: self.target_pages,
            actual_pages: self.actual_pages,
        }
    }

    fn restore(&mut self, state: VirtioBalloonMmioState)
        ensures
            final(self)@ == old(self)@.restored(
                state.regs,
                state.queues@,
                state.processors@,
                state.config_generation,
                state.target_pages,
                state.actual_pages,
            ),
            final(self).discard == old(self).discard,
    {
        let ghost want = old(self)@.restored(
            state.regs,
            state.queues@,
            state.processors@,
            state.config_generation,
            state.target_pages,
            state.actual_pages,
        );
        let mut processors: Vec<Option<VirtQueueProcessor>> = Vec::new();
        let mut i: usize = 0;
        while i < state.processors.len()
            invariant
                i <= state.processors@.len(),
                want.processors == Seq::new(
                    state.processors@.len(),
                    |i: int| resumed_processor(state.queues@, i, state.processors@[i]),
                ),
                processors@ =~= want.processors.take(i as int),
            decreases state.processors@.len() - i,
        {
            let used = i < state.queues.len() && state.queues[i].ready
                && state.queues[i].valid_size();
            let saved = state.processors[i];
            let p = if used {
                queue_state::restore_processor(&state.queues, i, saved)
            } else {
                None
            };
            processors.push(p);
            i += 1;
        }
        self.regs = state.regs;
        self.queues = state.queues;
        self.processors = processors;
        self.config_generation = state.config_generation;
        self.target_pages = state.target_pages;
        self.actual_pages = state.actual_pages;
        assert(self@ =~= want);
    }
}

impl<
    DISCARD: Fn(GuestMemoryMmap, u64, u64) -> (GuestMemoryMmap, bool) + Send + Sync,
> MmioDevice for VirtioBalloonMmio<DISCARD> {
    open spec fn reads(&self, offset: u64, len: u8, r: MmioReadResult) -> bool {
        r == Ok::<u64, MmioError>(self@.register(offset) as u64)
    }

    open spec fn writes(
        &self,
        offset: u64,
        val: u64,
        len: u8,
        post: &Self,
        r: MmioWriteResult,
    ) -> bool {
        &&& r == Ok::<(), MmioError>(())
        &&& post.discard == self.discard
        &&& if offset == reg::QUEUE_NOTIFY {
            exists|done: nat|
                #[trigger] balloon_kicked(self.discard, self@, val as u32 as int, post@, done)
        } else {
            post@ == self@.written(offset, val as u32)
        }
    }

    open spec fn inv(&self) -> bool {
        self.wf()
    }

    fn mmio_read(&self, offset: u64, _len: u8) -> (r: MmioReadResult) {
        let value: u32 = if offset == reg::MAGIC_VALUE {
            MAGIC
        } else if offset == reg::VERSION {
            2
        } else if offset == reg::DEVICE_ID {
            DEVICE_ID_BALLOON
        } else if offset == reg::HOST_FEATURES {
            if self.regs.host_features_sel == 0 {
                FEATURES_LOW
            } else if self.regs.host_features_sel == 1 {
                FEATURES_HIGH
            } else {
                0
            }
        } else if offset == reg::QUEUE_NUM_MAX {
            if (self.regs.queue_sel as usize) < QUEUE_COUNT {
                MAX_QUEUE_SIZE as u32
            } else {
                0
            }
        } else if offset == reg::STATUS {
            self.regs.status
        } else if offset == reg::INTERRUPT_STATUS {
            self.regs.interrupt_status
        } else if offset == reg::CONFIG_GENERATION {
            self.config_generation
        } else if offset == reg::CONFIG {
            self.target_pages
        } else if offset == CONFIG_ACTUAL {
            self.actual_pages
        } else if is_queue_reg(offset) {
            read_queue_register(&self.queues, self.regs.queue_sel, offset)
        } else {
            0
        };
        Ok(value as u64)
    }

    fn mmio_write(&mut self, offset: u64, val: u64, _len: u8) -> (r: MmioWriteResult) {
        let value: u32 = val as u32;
        if offset == reg::STATUS {
            if value == 0 {
                self.reset();
            } else {
                self.regs.status = value;
                self.regs.activated = value & status_bits::DRIVER_OK != 0;
            }
        } else if offset == reg::QUEUE_NOTIFY {
            let _done: usize = self.process_queue(value as usize);
        } else if is_queue_reg(offset) {
            write_queue_register(&mut self.queues, self.regs.queue_sel, offset, value);
        } else if offset == CONFIG_ACTUAL {
            if value as u64 <= self.size_bytes / PAGE_SIZE {
                self.actual_pages = value;
            } else {
                self.counts.rejected_pfns = self.counts.rejected_pfns.wrapping_add(1);
            }
        } else {
            self.regs.write(offset, value, FEATURES_LOW, FEATURES_HIGH);
        }
        Ok(())
    }
}

/// A device that takes back what another one with the same memory saved reads the same in every
/// register, and goes on at the same place of each queue that is in use.
pub proof fn law_balloon_save_restore(a: BalloonView, b: BalloonView)
    ensures
        ({
            let r = b.restored(
                a.regs,
                a.queues,
                a.saved_processors(),
                a.config_generation,
                a.target_pages,
                a.actual_pages,
            );
            &&& forall|off: u64| #[trigger] r.register(off) == a.register(off)
            &&& r.processors.len() == a.processors.len()
            &&& forall|i: int|
                0 <= i < a.processors.len() && a.can_process(i) ==> queue_state::saved_processor(
                    #[trigger] r.processors[i],
                ) == queue_state::saved_processor(a.processors[i])
        }),
{
}

/// A page count that guest memory does not have changes neither the target nor the count that
/// the driver reported.
pub proof fn law_balloon_pages_bounded(d: BalloonView, off: u64, val: u32)
    requires
        d.pages_fit(d.target_pages),
        d.pages_fit(d.actual_pages),
    ensures
        d.written(off, val).pages_fit(d.written(off, val).target_pages),
        d.written(off, val).pages_fit(d.written(off, val).actual_pages),
        d.written(off, val).target_pages == d.target_pages,
{
}

} // verus!
