//! What a driver finds in the registers of a device, and what its writes do.
use crate::bytes;
use crate::virtio::balloon::BalloonView;
use crate::virtio::blk_transport::{self, BlkMmioView};
use crate::virtio::net_transport::NetMmioView;
use crate::virtio::queue_state::{self, QueueState};
use crate::virtio::rng_transport::RngMmioView;
use crate::virtio::transport_regs::{self, TransportRegs};
use crate::virtio::vqueue;
use crate::virtio::vsock::{self, VsockView};
use vstd::prelude::*;

verus! {

/// Counters count one for one event and `k` for `k`, in 64 bits that wrap around.
pub proof fn law_counters_count(n: u64, k: u64)
    ensures
        transport_regs::counted(n) == (n + 1) % 0x1_0000_0000_0000_0000,
        transport_regs::counted_by(n, k) == (n + k) % 0x1_0000_0000_0000_0000,
{
}

/// A write to a register of the transport changes the field that it is for and no other. The
/// selectors take any value; the features of the guest go to the half that is selected, through
/// the mask of that half; an acknowledged interrupt is no longer pending.
pub proof fn law_transport_write_changes_its_field(
    r: TransportRegs,
    off: u64,
    val: u32,
    low: u32,
    high: u32,
)
    ensures
        ({
            let t = r.written(off, val, low, high);
            &&& t.host_features_sel == (if off == 0x14 {
                val
            } else {
                r.host_features_sel
            })
            &&& t.guest_features_sel == (if off == 0x24 {
                val
            } else {
                r.guest_features_sel
            })
            &&& t.queue_sel == (if off == 0x30 {
                val
            } else {
                r.queue_sel
            })
            &&& t.interrupt_status == (if off == 0x64 {
                r.interrupt_status & !val
            } else {
                r.interrupt_status
            })
            &&& t.guest_features_low == (if off == 0x20 && r.guest_features_sel == 0 {
                val & low
            } else {
                r.guest_features_low
            })
            &&& t.guest_features_high == (if off == 0x20 && r.guest_features_sel == 1 {
                val & high
            } else {
                r.guest_features_high
            })
            &&& t.status == r.status
            &&& t.activated == r.activated
        }),
{
    assert(val & 0xffff_ffff == val) by (bit_vector);
}

/// A status that is written is the status, and the driver's last step activates the device for
/// good.
pub proof fn law_status_is_taken(r: TransportRegs, val: u32)
    ensures
        r.with_status(val) == (TransportRegs {
            status: val,
            activated: r.activated || val & 4 != 0,
            ..r
        }),
{
}

/// A queue has one of the sizes that a device offers: a power of two up to 256.
pub open spec fn offered(n: int) -> bool {
    n == 1 || n == 2 || n == 4 || n == 8 || n == 16 || n == 32 || n == 64 || n == 128 || n == 256
}

/// A write to a register of a queue changes the field that it is for and no other. A size that is
/// not offered unsets the queue, and only a queue with a size can be made ready. An address is
/// written in halves, each of which keeps the other.
pub proof fn law_queue_write_changes_its_field(q: QueueState, off: u64, val: u32)
    ensures
        ({
            let t = q.written(off, val);
            &&& t.size == (if off == 0x38 {
                if offered(val as int) {
                    val as int
                } else {
                    0
                }
            } else {
                q.size as int
            })
            &&& t.ready == (if off == 0x38 {
                q.ready && offered(val as int)
            } else if off == 0x44 {
                val != 0 && offered(q.size as int)
            } else {
                q.ready
            })
            &&& half_written(q.desc_table_addr, t.desc_table_addr, off, 0x80, val)
            &&& half_written(q.avail_ring_addr, t.avail_ring_addr, off, 0x90, val)
            &&& half_written(q.used_ring_addr, t.used_ring_addr, off, 0xa0, val)
        }),
{
}

/// The half of an address that has its register at `off` was written; the low one has its at
/// `at`, the high one behind it.
pub open spec fn half_written(then: u64, now: u64, off: u64, at: u64, val: u32) -> bool {
    &&& now % 0x1_0000_0000 == (if off == at {
        val as u64
    } else {
        then % 0x1_0000_0000
    })
    &&& now / 0x1_0000_0000 == (if off == at + 4 {
        val as u64
    } else {
        then / 0x1_0000_0000
    })
}

/// A register of a queue reads what the queue holds.
pub proof fn law_queue_register_reads_its_field(q: QueueState)
    ensures
        q.register(0x38) == q.size,
        q.register(0x44) == (if q.ready && offered(q.size as int) {
            1int
        } else {
            0
        }),
        q.register(0x80) == q.desc_table_addr % 0x1_0000_0000,
        q.register(0x84) == q.desc_table_addr / 0x1_0000_0000,
        q.register(0x90) == q.avail_ring_addr % 0x1_0000_0000,
        q.register(0x94) == q.avail_ring_addr / 0x1_0000_0000,
        q.register(0xa0) == q.used_ring_addr % 0x1_0000_0000,
        q.register(0xa4) == q.used_ring_addr / 0x1_0000_0000,
{
}

/// Writes and reads of queue registers go to the selected queue and to no other. Where there is no
/// such queue, a write does nothing and a read gives zero.
pub proof fn law_selected_queue_is_meant(queues: Seq<QueueState>, sel: u32, off: u64, val: u32)
    ensures
        ({
            let t = queue_state::queues_written(queues, sel, off, val);
            &&& t.len() == queues.len()
            &&& forall|i: int|
                0 <= i < queues.len() ==> #[trigger] t[i] == (if i == sel {
                    queues[i].written(off, val)
                } else {
                    queues[i]
                })
            &&& queue_state::queues_register(queues, sel, off) == (if sel < queues.len() {
                queues[sel as int].register(off)
            } else {
                0
            })
        }),
{
}

/// Where the registers of the selected queue are.
pub open spec fn is_queue_offset(off: u64) -> bool {
    off == 0x38 || off == 0x44 || off == 0x80 || off == 0x84 || off == 0x90 || off == 0x94 || off
        == 0xa0 || off == 0xa4
}

/// The registers that all devices have: the magic, the version, the device and vendor, the
/// features, the largest queue size, the status, the pending interrupts and those of the selected
/// queue.
pub open spec fn reads_as_usual(
    reads: spec_fn(u64) -> u32,
    device_id: u32,
    vendor_id: u32,
    version: u32,
    features: u32,
    num_max: u32,
    regs: TransportRegs,
    queues: Seq<QueueState>,
) -> bool {
    &&& reads(0) == 0x7472_6976
    &&& reads(4) == version
    &&& reads(8) == device_id
    &&& reads(0xc) == vendor_id
    &&& reads(0x10) == features
    &&& reads(0x34) == num_max
    &&& reads(0x60) == regs.interrupt_status
    &&& reads(0x70) == regs.status
    &&& forall|off: u64| #[trigger]
        is_queue_offset(off) ==> reads(off) == (if regs.queue_sel < queues.len() {
            queues[regs.queue_sel as int].register(off)
        } else {
            0
        })
    &&& reads(0x14) == 0 && reads(0x20) == 0 && reads(0x24) == 0 && reads(0x30) == 0 && reads(0x50)
        == 0 && reads(0x64) == 0
}

/// The half of the features that is selected: the low one, the high one, or none.
pub open spec fn selected(sel: u32, low: u32, high: u32) -> u32 {
    if sel == 0 {
        low
    } else if sel == 1 {
        high
    } else {
        0
    }
}

/// Byte `k` of a 32-bit integer, the least significant being the first.
pub open spec fn byte_of(x: int, k: int) -> int {
    if k == 0 {
        x % 256
    } else if k == 1 {
        x / 256 % 256
    } else if k == 2 {
        x / 65536 % 256
    } else {
        x / 16777216 % 256
    }
}

/// Byte `k` of the configuration space of a disk: its size in sectors in eight bytes, the block
/// size of 512 in four, each with the least significant byte first, and zeros.
pub open spec fn disk_config_byte(sectors: u64, k: int) -> int {
    if 0 <= k < 4 {
        byte_of(sectors as int % 0x1_0000_0000, k)
    } else if 4 <= k < 8 {
        byte_of(sectors as int / 0x1_0000_0000, k - 4)
    } else if k == 9 {
        2
    } else {
        0
    }
}

proof fn lemma_byte_of(x: int, k: int)
    requires
        0 <= k < 4,
    ensures
        bytes::le32_bytes(x)[k] == byte_of(x, k),
{
}

/// The configuration space of a disk holds its bytes, one behind the other.
pub proof fn law_disk_config_layout(sectors: u64, k: int)
    requires
        0 <= k < 16,
    ensures
        blk_transport::config_space(sectors).len() == 16,
        blk_transport::config_space(sectors)[k] == disk_config_byte(sectors, k),
{
    let x = sectors as int;
    if k < 4 {
        lemma_byte_of(x % 0x1_0000_0000, k);
    } else if k < 8 {
        lemma_byte_of(x / 0x1_0000_0000, k - 4);
    }
}

/// What a block device reads as. Its configuration space reads as a window of four bytes from any
/// offset in front of its end; without a disk it reads as zero.
pub proof fn law_blk_registers_read(d: BlkMmioView, off: u64)
    ensures
        reads_as_usual(
            |o: u64| d.register(o),
            d.device_id,
            d.vendor_id,
            d.version,
            selected(d.regs.host_features_sel, 512, 1),
            256,
            d.regs,
            d.queues,
        ),
        d.backend is Some && 0x100 <= off < 0x10c ==> {
            let sectors = d.backend->0.sectors;
            let k = off - 0x100;
            d.register(off) == disk_config_byte(sectors, k) + 256 * disk_config_byte(
                sectors,
                k + 1,
            ) + 65536 * disk_config_byte(sectors, k + 2) + 16777216 * disk_config_byte(
                sectors,
                k + 3,
            )
        },
        off >= 0x10c || d.backend is None && off >= 0x100 ==> d.register(off) == 0,
{
    if d.backend is Some && 0x100 <= off < 0x10c {
        let sectors = d.backend->0.sectors;
        let k = off - 0x100;
        let c = blk_transport::config_space(sectors);
        law_disk_config_layout(sectors, k);
        law_disk_config_layout(sectors, k + 1);
        law_disk_config_layout(sectors, k + 2);
        law_disk_config_layout(sectors, k + 3);
        bytes::lemma_le32_stands(c, k);
    }
}

/// What a write to a block device does, but for a notification: a status of zero resets it, any
/// other is taken; queue registers go to the selected queue; the rest to the transport.
pub proof fn law_blk_registers_written(d: BlkMmioView, off: u64, val: u32)
    ensures
        ({
            let t = d.written(off, val);
            &&& off == 0x70 && val == 0 ==> t.regs == TransportRegs::cleared() && t.processor is None
                && t.queues.len() == d.queues.len() && forall|i: int|
                0 <= i < d.queues.len() ==> #[trigger] t.queues[i] == QueueState::cleared()
            &&& off == 0x70 && val != 0 ==> t.regs == d.regs.with_status(val)
            &&& t.status_writes == (if off == 0x70 {
                (d.status_writes + 1) % 0x1_0000_0000_0000_0000
            } else {
                d.status_writes as int
            })
            &&& is_queue_offset(off) ==> t.queues == queue_state::queues_written(
                d.queues,
                d.regs.queue_sel,
                off,
                val,
            ) && t.regs == d.regs
            &&& off != 0x70 && !is_queue_offset(off) ==> t.regs == d.regs.written(
                off,
                val,
                0xffff_ffff,
                0xffff_ffff,
            ) && t.queues == d.queues
            &&& t.backend == d.backend && t.ram == d.ram && t.dirty == d.dirty && t.limiter
                == d.limiter && t.pending_irqs == d.pending_irqs && t.notify_count == d.notify_count
            &&& !(off == 0x70 && val == 0) ==> t.processor == d.processor
            &&& off == 0x70 && val != 0 ==> t.queues == d.queues
        }),
{
}

/// What an entropy device reads as.
pub proof fn law_rng_registers_read(d: RngMmioView, off: u64)
    ensures
        reads_as_usual(
            |o: u64| d.register(o),
            d.device_id,
            d.vendor_id,
            d.version,
            selected(d.regs.host_features_sel, 0, 1),
            256,
            d.regs,
            d.queues,
        ),
        off >= 0x100 ==> d.register(off) == 0,
{
}

/// What a write to an entropy device does, but for a notification: a status of zero resets it, any
/// other is taken; queue registers go to the selected queue; the rest to the transport.
pub proof fn law_rng_registers_written(d: RngMmioView, off: u64, val: u32)
    ensures
        ({
            let t = d.written(off, val);
            &&& off == 0x70 && val == 0 ==> t.regs == TransportRegs::cleared() && t.processor is None
                && t.queues.len() == d.queues.len() && forall|i: int|
                0 <= i < d.queues.len() ==> #[trigger] t.queues[i] == QueueState::cleared()
            &&& off == 0x70 && val != 0 ==> t.regs == d.regs.with_status(val) && t.queues
                == d.queues
            &&& is_queue_offset(off) ==> t.queues == queue_state::queues_written(
                d.queues,
                d.regs.queue_sel,
                off,
                val,
            ) && t.regs == d.regs
            &&& off != 0x70 && !is_queue_offset(off) ==> t.regs == d.regs.written(
                off,
                val,
                0xffff_ffff,
                0xffff_ffff,
            ) && t.queues == d.queues
            &&& t.rng == d.rng && t.ram == d.ram && t.dirty == d.dirty && t.pending_irqs
                == d.pending_irqs && t.notify_count == d.notify_count
            &&& !(off == 0x70 && val == 0) ==> t.processor == d.processor
        }),
{
}

/// What a network device reads as. A read of its MAC gives the bytes from the offset on, as many
/// as were asked for, up to four and up to its end, the first as the least significant.
pub proof fn law_net_registers_read(d: NetMmioView, off: u64, len: u8)
    requires
        d.mac.len() == 6,
    ensures
        reads_as_usual(
            |o: u64| d.register(o, len),
            d.device_id,
            d.vendor_id,
            d.version,
            if d.regs.host_features_sel == 0 {
                d.features
            } else {
                1
            },
            256,
            d.regs,
            d.queues,
        ),
        0x100 <= off < 0x106 ==> {
            let at = off - 0x100;
            d.register(off, len) == mac_byte(d.mac, at, 0, len as int) + 256 * mac_byte(
                d.mac,
                at,
                1,
                len as int,
            ) + 65536 * mac_byte(d.mac, at, 2, len as int) + 16777216 * mac_byte(
                d.mac,
                at,
                3,
                len as int,
            )
        },
        off >= 0x106 ==> d.register(off, len) == 0,
{
    if 0x100 <= off < 0x106 {
        let at = off - 0x100;
        let b = Seq::new(
            4,
            |k: int|
                if k < len && at + k < 6 {
                    d.mac[at + k]
                } else {
                    0u8
                },
        );
        bytes::lemma_le32_stands(b, 0);
    }
}

/// Byte `k` of a read of `len` bytes of the MAC from `at` on.
pub open spec fn mac_byte(mac: Seq<u8>, at: int, k: int, len: int) -> u8 {
    if k < len && at + k < 6 {
        mac[at + k]
    } else {
        0
    }
}

/// What a write to a network device does, but for a notification: the status is taken, whatever it
/// is; queue registers go to the selected queue; the rest to the transport, but for the high half
/// of the guest's features, which it does not keep.
pub proof fn law_net_registers_written(d: NetMmioView, off: u64, val: u32)
    ensures
        ({
            let t = d.written(off, val);
            &&& off == 0x70 ==> t == NetMmioView {
                regs: d.regs.with_status(val),
                status_writes: t.status_writes,
                ..d
            } && t.status_writes == (d.status_writes + 1) % 0x1_0000_0000_0000_0000
            &&& is_queue_offset(off) ==> t == NetMmioView {
                queues: queue_state::queues_written(d.queues, d.regs.queue_sel, off, val),
                ..d
            }
            &&& off != 0x70 && !is_queue_offset(off) ==> t == NetMmioView {
                regs: if off == 0x20 && d.regs.guest_features_sel != 0 {
                    d.regs
                } else {
                    d.regs.written(off, val, 0xffff_ffff, 0xffff_ffff)
                },
                ..d
            }
        }),
{
}

/// What a balloon reads as: it offers two queues.
pub proof fn law_balloon_registers_read(d: BalloonView, off: u64)
    ensures
        reads_as_usual(
            |o: u64| d.register(o),
            5,
            0,
            2,
            selected(d.regs.host_features_sel, 0, 1),
            if d.regs.queue_sel < 2 {
                256
            } else {
                0
            },
            d.regs,
            d.queues,
        ),
        d.register(0xfc) == d.config_generation,
        off >= 0x108 ==> d.register(off) == 0,
{
}

/// What a write to a balloon does to its transport, but for a notification: a status of zero
/// resets it, any other is taken, and activates it exactly where it has the driver's last step;
/// queue registers go to the selected queue; of the guest's features only that of version 1 is
/// kept.
pub proof fn law_balloon_registers_written(d: BalloonView, off: u64, val: u32)
    ensures
        ({
            let t = d.written(off, val);
            &&& off == 0x70 && val == 0 ==> t.regs == TransportRegs::cleared() && t.queues.len()
                == d.queues.len() && (forall|i: int|
                0 <= i < d.queues.len() ==> #[trigger] t.queues[i] == QueueState::cleared()) && (
            forall|i: int| 0 <= i < t.processors.len() ==> #[trigger] t.processors[i] is None)
            &&& off == 0x70 && val != 0 ==> t == BalloonView {
                regs: TransportRegs { status: val, activated: val & 4 != 0, ..d.regs },
                ..d
            }
            &&& is_queue_offset(off) ==> t == BalloonView {
                queues: queue_state::queues_written(d.queues, d.regs.queue_sel, off, val),
                ..d
            }
            &&& off != 0x70 && off != 0x104 && !is_queue_offset(off) ==> t == BalloonView {
                regs: d.regs.written(off, val, 0, 1),
                ..d
            }
            &&& t.ram == d.ram && t.dirty == d.dirty && t.config_generation == d.config_generation
                && t.pending_irqs == d.pending_irqs
        }),
{
}

/// What a vsock device reads as, but for its configuration space: it offers three queues.
pub proof fn law_vsock_registers_read<S>(d: VsockView<S>, off: u64, len: u8)
    ensures
        reads_as_usual(
            |o: u64| d.plain_register(o),
            d.device_id,
            d.vendor_id,
            d.version,
            selected(d.regs.host_features_sel, 0, 1),
            if d.regs.queue_sel < 3 {
                256
            } else {
                0
            },
            d.regs,
            d.queues,
        ),
        off < 0x100 ==> d.register(off, len) == d.plain_register(off),
        off >= 0x108 ==> d.register(off, len) == 0,
        off == 0x100 && len >= 8 ==> d.register(off, len) == d.guest_cid,
        off == 0x100 && len == 4 ==> d.register(off, len) == d.guest_cid % 0x1_0000_0000,
        off == 0x104 && len == 4 ==> d.register(off, len) == d.guest_cid / 0x1_0000_0000,
{
    let x = d.guest_cid as int;
    let b = bytes::le64_bytes(x);
    bytes::lemma_le64_round_trip(d.guest_cid);
    let lo = bytes::le32_bytes(x % 0x1_0000_0000);
    let hi = bytes::le32_bytes(x / 0x1_0000_0000);
    bytes::lemma_le32_round_trip((x % 0x1_0000_0000) as u32);
    bytes::lemma_le32_round_trip((x / 0x1_0000_0000) as u32);
    let none = Seq::<u8>::new(0, |i: int| 0u8);
    let four = Seq::<u8>::new(4, |i: int| 0u8);
    assert(b.subrange(0, 8) + none =~= b);
    assert(b.subrange(0, 4) =~= lo);
    assert(b.subrange(4, 8) =~= hi);
    assert(bytes::le32_at(lo + four, 0) == bytes::le32_at(lo, 0));
    assert(bytes::le32_at(lo + four, 4) == 0);
    assert(bytes::le32_at(hi + four, 0) == bytes::le32_at(hi, 0));
    assert(bytes::le32_at(hi + four, 4) == 0);
}

/// What a write to a vsock device does, but for a notification: a status of zero resets it and
/// drops all connections and packets, any other is taken; queue registers go to the selected
/// queue; the rest to the transport. Nothing else touches a connection.
pub proof fn law_vsock_registers_written<S>(d: VsockView<S>, off: u64, val: u32)
    ensures
        ({
            let t = d.written(off, val);
            &&& off == 0x70 && val == 0 ==> t.regs == TransportRegs::cleared()
                && t.bridge.connections.len() == 0 && t.bridge.pending.len() == 0
                && t.rx_processor is None && t.tx_processor is None && t.queues.len()
                == d.queues.len() && (forall|i: int|
                0 <= i < d.queues.len() ==> #[trigger] t.queues[i] == QueueState::cleared())
            &&& off == 0x70 && val != 0 ==> t == VsockView {
                regs: d.regs.with_status(val),
                status_writes: t.status_writes,
                ..d
            }
            &&& t.status_writes == (if off == 0x70 {
                (d.status_writes + 1) % 0x1_0000_0000_0000_0000
            } else {
                d.status_writes as int
            })
            &&& is_queue_offset(off) ==> t == VsockView {
                queues: queue_state::queues_written(d.queues, d.regs.queue_sel, off, val),
                ..d
            }
            &&& off != 0x70 && !is_queue_offset(off) ==> t == VsockView {
                regs: d.regs.written(off, val, 0xffff_ffff, 0xffff_ffff),
                ..d
            }
            &&& t.ram == d.ram && t.counts == d.counts && t.guest_cid == d.guest_cid
        }),
{
}

/// A vsock device with this status takes nothing but a reset: bit 6 or bit 7 is set.
pub proof fn law_vsock_failure_is_in_the_status(status: u32)
    ensures
        vsock::failed_status(status) <==> status & 64 != 0 || status & 128 != 0,
{
    assert(status & (64u32 | 128u32) != 0 <==> status & 64 != 0 || status & 128 != 0)
        by (bit_vector);
}

/// The sizes of queues that a device offers are the powers of two up to 256.
pub proof fn law_offered_queue_sizes(n: int)
    ensures
        vqueue::valid_queue_size(n, 256) <==> offered(n),
        vqueue::MAX_QUEUE_SIZE == 256,
{
}

} // verus!
