//! The queue registers of a virtio-mmio transport.
use crate::virtio::regs::reg;
use crate::virtio::vqueue::{
    self, is_valid_queue_size, QueueConfig, VirtQueueProcessor, VirtQueueProcessorState,
    MAX_QUEUE_SIZE,
};
use vstd::prelude::*;

verus! {

/// Queue config stored per queue index.
#[derive(Debug, Copy, Clone, PartialEq, Eq, Structural)]
pub struct QueueState {
    pub size: u16,
    pub desc_table_addr: u64,
    pub avail_ring_addr: u64,
    pub used_ring_addr: u64,
    pub ready: bool,
}

impl Default for QueueState {
    fn default() -> (q: Self)
        ensures
            q == QueueState::cleared(),
    {
        QueueState {
            size: 0,
            desc_table_addr: 0,
            avail_ring_addr: 0,
            used_ring_addr: 0,
            ready: false,
        }
    }
}

/// `addr` with its low 32 bits replaced.
pub open spec fn with_low(addr: u64, val: u32) -> u64 {
    (addr / 0x1_0000_0000 * 0x1_0000_0000 + val) as u64
}

/// `addr` with its high 32 bits replaced.
pub open spec fn with_high(addr: u64, val: u32) -> u64 {
    (addr % 0x1_0000_0000 + 0x1_0000_0000 * val) as u64
}

impl QueueState {
    /// A queue that the guest has not configured.
    pub open spec fn cleared() -> QueueState {
        QueueState {
            size: 0,
            desc_table_addr: 0,
            avail_ring_addr: 0,
            used_ring_addr: 0,
            ready: false,
        }
    }

    /// The guest chose a size that the device offers.
    pub open spec fn sized(self) -> bool {
        vqueue::valid_queue_size(self.size as int, MAX_QUEUE_SIZE as int)
    }

    /// The configuration that the registers describe.
    pub open spec fn config(self) -> QueueConfig {
        QueueConfig {
            size: self.size,
            desc_table_addr: self.desc_table_addr,
            avail_ring_addr: self.avail_ring_addr,
            used_ring_addr: self.used_ring_addr,
            ready: self.ready,
        }
    }

    /// The queue after `val` was written to its register at `off`. A size that the device does
    /// not offer unsets the queue, and a queue without a size cannot be made ready.
    pub open spec fn written(self, off: u64, val: u32) -> QueueState {
        if off == reg::QUEUE_NUM {
            if vqueue::valid_queue_size(val as int, MAX_QUEUE_SIZE as int) {
                QueueState { size: val as u16, ..self }
            } else {
                QueueState { size: 0, ready: false, ..self }
            }
        } else if off == reg::QUEUE_READY {
            QueueState { ready: val != 0 && self.sized(), ..self }
        } else if off == reg::QUEUE_DESC_LOW {
            QueueState { desc_table_addr: with_low(self.desc_table_addr, val), ..self }
        } else if off == reg::QUEUE_DESC_HIGH {
            QueueState { desc_table_addr: with_high(self.desc_table_addr, val), ..self }
        } else if off == reg::QUEUE_DRIVER_LOW {
            QueueState { avail_ring_addr: with_low(self.avail_ring_addr, val), ..self }
        } else if off == reg::QUEUE_DRIVER_HIGH {
            QueueState { avail_ring_addr: with_high(self.avail_ring_addr, val), ..self }
        } else if off == reg::QUEUE_DEVICE_LOW {
            QueueState { used_ring_addr: with_low(self.used_ring_addr, val), ..self }
        } else if off == reg::QUEUE_DEVICE_HIGH {
            QueueState { used_ring_addr: with_high(self.used_ring_addr, val), ..self }
        } else {
            self
        }
    }

    /// What the queue's register at `off` reads.
    pub open spec fn register(self, off: u64) -> u32 {
        if off == reg::QUEUE_NUM {
            self.size as u32
        } else if off == reg::QUEUE_READY {
            if self.ready && self.sized() {
                1
            } else {
                0
            }
        } else if off == reg::QUEUE_DESC_LOW {
            (self.desc_table_addr % 0x1_0000_0000) as u32
        } else if off == reg::QUEUE_DESC_HIGH {
            (self.desc_table_addr / 0x1_0000_0000) as u32
        } else if off == reg::QUEUE_DRIVER_LOW {
            (self.avail_ring_addr % 0x1_0000_0000) as u32
        } else if off == reg::QUEUE_DRIVER_HIGH {
            (self.avail_ring_addr / 0x1_0000_0000) as u32
        } else if off == reg::QUEUE_DEVICE_LOW {
            (self.used_ring_addr % 0x1_0000_0000) as u32
        } else if off == reg::QUEUE_DEVICE_HIGH {
            (self.used_ring_addr / 0x1_0000_0000) as u32
        } else {
            0
        }
    }

    pub fn valid_size(&self) -> (r: bool)
        ensures
            r == self.sized(),
    {
        is_valid_queue_size(self.size, MAX_QUEUE_SIZE)
    }

    pub fn set_size(&mut self, size: u32)
        ensures
            *final(self) == old(self).written(reg::QUEUE_NUM, size),
    {
        if size <= 0xffff && is_valid_queue_size(size as u16, MAX_QUEUE_SIZE) {
            self.size = size as u16;
        } else {
            self.size = 0;
            self.ready = false;
        }
    }

    pub fn set_ready(&mut self, ready: bool)
        ensures
            *final(self) == (QueueState { ready: ready && old(self).sized(), ..*old(self) }),
    {
        if ready && !self.valid_size() {
            self.ready = false;
        } else {
            self.ready = ready;
        }
    }

    pub fn queue_config(&self) -> (c: QueueConfig)
        ensures
            c == self.config(),
    {
        QueueConfig {
            size: self.size,
            desc_table_addr: self.desc_table_addr,
            avail_ring_addr: self.avail_ring_addr,
            used_ring_addr: self.used_ring_addr,
            ready: self.ready,
        }
    }
}

/// The registers that configure the selected queue.
pub open spec fn is_queue_register(off: u64) -> bool {
    ||| off == reg::QUEUE_NUM
    ||| off == reg::QUEUE_READY
    ||| off == reg::QUEUE_DESC_LOW
    ||| off == reg::QUEUE_DESC_HIGH
    ||| off == reg::QUEUE_DRIVER_LOW
    ||| off == reg::QUEUE_DRIVER_HIGH
    ||| off == reg::QUEUE_DEVICE_LOW
    ||| off == reg::QUEUE_DEVICE_HIGH
}

/// The queues after `val` was written to a register of queue `sel`. There may be no such queue.
pub open spec fn queues_written(
    queues: Seq<QueueState>,
    sel: u32,
    off: u64,
    val: u32,
) -> Seq<QueueState> {
    if sel < queues.len() {
        queues.update(sel as int, queues[sel as int].written(off, val))
    } else {
        queues
    }
}

/// What a register of queue `sel` reads; zero where there is no such queue.
pub open spec fn queues_register(queues: Seq<QueueState>, sel: u32, off: u64) -> u32 {
    if sel < queues.len() {
        queues[sel as int].register(off)
    } else {
        0
    }
}

/// What the guest writes to an address register of a queue is what it reads back there, and
/// the other half of the address stays.
pub proof fn law_queue_address_round_trip(q: QueueState, val: u32)
    ensures
        q.written(reg::QUEUE_DESC_LOW, val).register(reg::QUEUE_DESC_LOW) == val,
        q.written(reg::QUEUE_DESC_LOW, val).register(reg::QUEUE_DESC_HIGH) == q.register(
            reg::QUEUE_DESC_HIGH,
        ),
        q.written(reg::QUEUE_DESC_HIGH, val).register(reg::QUEUE_DESC_HIGH) == val,
        q.written(reg::QUEUE_DESC_HIGH, val).register(reg::QUEUE_DESC_LOW) == q.register(
            reg::QUEUE_DESC_LOW,
        ),
        q.written(reg::QUEUE_DRIVER_LOW, val).register(reg::QUEUE_DRIVER_LOW) == val,
        q.written(reg::QUEUE_DRIVER_LOW, val).register(reg::QUEUE_DRIVER_HIGH) == q.register(
            reg::QUEUE_DRIVER_HIGH,
        ),
        q.written(reg::QUEUE_DRIVER_HIGH, val).register(reg::QUEUE_DRIVER_HIGH) == val,
        q.written(reg::QUEUE_DRIVER_HIGH, val).register(reg::QUEUE_DRIVER_LOW) == q.register(
            reg::QUEUE_DRIVER_LOW,
        ),
        q.written(reg::QUEUE_DEVICE_LOW, val).register(reg::QUEUE_DEVICE_LOW) == val,
        q.written(reg::QUEUE_DEVICE_LOW, val).register(reg::QUEUE_DEVICE_HIGH) == q.register(
            reg::QUEUE_DEVICE_HIGH,
        ),
        q.written(reg::QUEUE_DEVICE_HIGH, val).register(reg::QUEUE_DEVICE_HIGH) == val,
        q.written(reg::QUEUE_DEVICE_HIGH, val).register(reg::QUEUE_DEVICE_LOW) == q.register(
            reg::QUEUE_DEVICE_LOW,
        ),
{
}

/// A queue reads as ready exactly when it was made ready with a size that the device offers,
/// and choosing another size makes it read as not ready.
pub proof fn law_queue_ready_needs_size(q: QueueState, val: u32)
    ensures
        q.written(reg::QUEUE_READY, val).register(reg::QUEUE_READY) == (if val != 0 && q.sized() {
            1u32
        } else {
            0
        }),
        !vqueue::valid_queue_size(val as int, MAX_QUEUE_SIZE as int) ==> {
            &&& q.written(reg::QUEUE_NUM, val).register(reg::QUEUE_READY) == 0
            &&& q.written(reg::QUEUE_NUM, val).register(reg::QUEUE_NUM) == 0
        },
{
}

/// Writes `val` to a register of queue `sel`, if there is such a queue.
pub fn write_queue_register(queues: &mut Vec<QueueState>, sel: u32, off: u64, val: u32)
    requires
        is_queue_register(off),
    ensures
        final(queues)@ == queues_written(old(queues)@, sel, off, val),
{
    let sel: usize = sel as usize;
    if sel >= queues.len() {
        return ;
    }
    let mut q = queues[sel];
    if off == reg::QUEUE_NUM {
        q.set_size(val);
    } else if off == reg::QUEUE_READY {
        q.set_ready(val != 0);
    } else if off == reg::QUEUE_DESC_LOW {
        q.desc_table_addr = replace_low(q.desc_table_addr, val);
    } else if off == reg::QUEUE_DESC_HIGH {
        q.desc_table_addr = replace_high(q.desc_table_addr, val);
    } else if off == reg::QUEUE_DRIVER_LOW {
        q.avail_ring_addr = replace_low(q.avail_ring_addr, val);
    } else if off == reg::QUEUE_DRIVER_HIGH {
        q.avail_ring_addr = replace_high(q.avail_ring_addr, val);
    } else if off == reg::QUEUE_DEVICE_LOW {
        q.used_ring_addr = replace_low(q.used_ring_addr, val);
    } else {
        q.used_ring_addr = replace_high(q.used_ring_addr, val);
    }
    queues.set(sel, q);
}

/// Reads a register of queue `sel`; zero where there is no such queue.
pub fn read_queue_register(queues: &Vec<QueueState>, sel: u32, off: u64) -> (val: u32)
    requires
        is_queue_register(off),
    ensures
        val == queues_register(queues@, sel, off),
{
    let sel: usize = sel as usize;
    if sel >= queues.len() {
        return 0;
    }
    let q = queues[sel];
    if off == reg::QUEUE_NUM {
        q.size as u32
    } else if off == reg::QUEUE_READY {
        if q.ready && q.valid_size() {
            1
        } else {
            0
        }
    } else if off == reg::QUEUE_DESC_LOW {
        (q.desc_table_addr % 0x1_0000_0000) as u32
    } else if off == reg::QUEUE_DESC_HIGH {
        (q.desc_table_addr / 0x1_0000_0000) as u32
    } else if off == reg::QUEUE_DRIVER_LOW {
        (q.avail_ring_addr % 0x1_0000_0000) as u32
    } else if off == reg::QUEUE_DRIVER_HIGH {
        (q.avail_ring_addr / 0x1_0000_0000) as u32
    } else if off == reg::QUEUE_DEVICE_LOW {
        (q.used_ring_addr % 0x1_0000_0000) as u32
    } else {
        (q.used_ring_addr / 0x1_0000_0000) as u32
    }
}

/// Whether `off` configures the selected queue.
pub fn is_queue_reg(off: u64) -> (r: bool)
    ensures
        r == is_queue_register(off),
{
    off == reg::QUEUE_NUM || off == reg::QUEUE_READY || off == reg::QUEUE_DESC_LOW || off
        == reg::QUEUE_DESC_HIGH || off == reg::QUEUE_DRIVER_LOW || off == reg::QUEUE_DRIVER_HIGH
        || off == reg::QUEUE_DEVICE_LOW || off == reg::QUEUE_DEVICE_HIGH
}

fn replace_low(addr: u64, val: u32) -> (r: u64)
    ensures
        r == with_low(addr, val),
{
    addr / 0x1_0000_0000 * 0x1_0000_0000 + val as u64
}

fn replace_high(addr: u64, val: u32) -> (r: u64)
    ensures
        r == with_high(addr, val),
{
    addr % 0x1_0000_0000 + 0x1_0000_0000 * (val as u64)
}

/// A copy of all queues.
pub fn copy_queues(queues: &Vec<QueueState>) -> (r: Vec<QueueState>)
    ensures
        r@ == queues@,
{
    let r = queues.clone();
    assert(r@ =~= queues@);
    r
}

/// Queues that the guest has not configured.
pub fn cleared_queues(n: usize) -> (r: Vec<QueueState>)
    ensures
        r@ == Seq::new(n as nat, |i: int| QueueState::cleared()),
{
    let r = vec![QueueState::default(); n];
    assert(r@ =~= Seq::new(n as nat, |i: int| QueueState::cleared()));
    r
}

/// What a tracker holds, if there is one.
pub open spec fn recorded(dirty: Option<Seq<(u64, u64)>>) -> Seq<(u64, u64)> {
    match dirty {
        Some(d) => d,
        None => Seq::empty(),
    }
}

/// A processor that works on a queue as the registers describe it: it keeps its place.
pub open spec fn configured(
    processor: Option<VirtQueueProcessor>,
    q: QueueState,
) -> VirtQueueProcessor {
    match processor {
        None => VirtQueueProcessor { config: q.config(), last_avail_idx: 0, last_used_idx: 0 },
        Some(p) => VirtQueueProcessor { config: q.config(), ..p },
    }
}

/// The positions that a processor saves.
pub open spec fn saved_processor(p: Option<VirtQueueProcessor>) -> Option<
    VirtQueueProcessorState,
> {
    match p {
        Some(p) => Some(
            VirtQueueProcessorState {
                last_avail_idx: p.last_avail_idx,
                last_used_idx: p.last_used_idx,
            },
        ),
        None => None,
    }
}

/// The processor that takes up saved positions on queue `i`.
pub open spec fn restored_processor(
    queues: Seq<QueueState>,
    i: int,
    p: Option<VirtQueueProcessorState>,
) -> Option<VirtQueueProcessor> {
    match p {
        Some(p) => Some(
            VirtQueueProcessor {
                config: if i < queues.len() {
                    queues[i].config()
                } else {
                    QueueState::cleared().config()
                },
                last_avail_idx: p.last_avail_idx,
                last_used_idx: p.last_used_idx,
            },
        ),
        None => None,
    }
}

/// The processor for a queue as the registers describe it: a new one, or the given one with its
/// place kept.
pub fn configure(processor: Option<VirtQueueProcessor>, q: &QueueState) -> (p: VirtQueueProcessor)
    ensures
        p == configured(processor, *q),
{
    match processor {
        None => VirtQueueProcessor::new(q.queue_config()),
        Some(p) => {
            let mut p = p;
            p.update_config(q.queue_config());
            p
        },
    }
}

/// Saves the positions of a processor.
pub fn save_processor(p: &Option<VirtQueueProcessor>) -> (s: Option<VirtQueueProcessorState>)
    ensures
        s == saved_processor(*p),
{
    match p {
        Some(p) => Some(p.save_state()),
        None => None,
    }
}

/// A processor for queue `i` with saved positions.
pub fn restore_processor(
    queues: &Vec<QueueState>,
    i: usize,
    p: Option<VirtQueueProcessorState>,
) -> (r: Option<VirtQueueProcessor>)
    ensures
        r == restored_processor(queues@, i as int, p),
{
    let config = if i < queues.len() {
        queues[i].queue_config()
    } else {
        QueueState::default().queue_config()
    };
    match p {
        Some(p) => Some(VirtQueueProcessor::from_state(config, p)),
        None => None,
    }
}

} // verus!
