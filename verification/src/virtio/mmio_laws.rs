//! What an access of a vCPU to a device is.
use crate::bus::{MmioDevice, MmioError, MmioReadResult, MmioWriteResult};
use crate::virtio::balloon::{self, VirtioBalloonMmio};
use crate::virtio::blk_backend::disk::DiskOp;
use crate::virtio::blk_transport::{self, BlkMmioView, VirtioBlkMmio};
use crate::virtio::net_transport::{self, NetMmioView, VirtioNetMmio};
use crate::virtio::rng_transport::{self, RngMmioView, VirtioRngMmio};
use crate::virtio::vsock::connections::HostVsockListener;
use crate::virtio::vsock::{self, VirtioVsockMmio, VsockView};
use vm_memory::GuestMemoryMmap;
use vstd::prelude::*;

verus! {

/// The 32 bits of a write that a register takes.
pub open spec fn low32(val: u64) -> u32 {
    (val % 0x1_0000_0000) as u32
}

proof fn lemma_low32(val: u64)
    ensures
        val as u32 == low32(val),
{
    assert(val as u32 == (val % 0x1_0000_0000) as u32) by (bit_vector);
}

/// A counter after one more event.
pub open spec fn one_more(n: u64) -> u64 {
    if n < 0xffff_ffff_ffff_ffff {
        (n + 1) as u64
    } else {
        0
    }
}

/// A network device with one more notification counted.
pub open spec fn net_notified(d: NetMmioView) -> NetMmioView {
    NetMmioView { notify_count: one_more(d.notify_count), ..d }
}

/// An entropy device with one more notification counted.
pub open spec fn rng_notified(d: RngMmioView) -> RngMmioView {
    RngMmioView { notify_count: one_more(d.notify_count), ..d }
}

/// A write to a block device never fails. At 0x50 it counts a notification and works through the
/// queue; elsewhere it goes to the registers. A read gives what the register holds.
pub proof fn law_blk_is_accessed<IO: Fn(DiskOp) -> Option<Vec<u8>> + Send + Sync>(
    d: &VirtioBlkMmio<IO>,
    off: u64,
    val: u64,
    len: u8,
    post: &VirtioBlkMmio<IO>,
    w: MmioWriteResult,
    r: MmioReadResult,
)
    requires
        d.writes(off, val, len, post, w),
        d.reads(off, len, r),
    ensures
        w is Ok,
        off == 0x50 ==> blk_transport::blk_kicked(
            (BlkMmioView { notify_count: one_more(d@.notify_count), ..d@ }),
            post@,
        ),
        off != 0x50 ==> post@ == d@.written(off, low32(val)),
        r matches Ok(x) && x == d@.register(off),
{
    lemma_low32(val);
}

/// A write to a network device never fails. At 0x50 it counts a notification, and works through
/// the TX queue where it names queue 1; elsewhere it goes to the registers. A read gives what the
/// register holds.
pub proof fn law_net_is_accessed<TAP: Fn(&[u8]) -> i64 + Send + Sync>(
    d: &VirtioNetMmio<TAP>,
    off: u64,
    val: u64,
    len: u8,
    post: &VirtioNetMmio<TAP>,
    w: MmioWriteResult,
    r: MmioReadResult,
)
    requires
        d.writes(off, val, len, post, w),
        d.reads(off, len, r),
    ensures
        w is Ok,
        off == 0x50 && low32(val) == 1 ==> exists|sent: nat|
            #[trigger] net_transport::tx_drained(net_notified(d@), post@, sent),
        off == 0x50 && low32(val) != 1 ==> post@ == net_notified(d@),
        off != 0x50 ==> post@ == d@.written(off, low32(val)),
        r matches Ok(x) && x == d@.register(off, len),
{
    lemma_low32(val);
}

/// A write to an entropy device never fails. At 0x50 it counts a notification and works through
/// the queue that it names; elsewhere it goes to the registers. A read gives what the register
/// holds.
pub proof fn law_rng_is_accessed(
    d: &VirtioRngMmio,
    off: u64,
    val: u64,
    len: u8,
    post: &VirtioRngMmio,
    w: MmioWriteResult,
    r: MmioReadResult,
)
    requires
        d.writes(off, val, len, post, w),
        d.reads(off, len, r),
    ensures
        w is Ok,
        off == 0x50 ==> exists|done: nat|
            #[trigger] rng_transport::rng_kicked(rng_notified(d@), low32(val), post@, done),
        off == 0x50 && low32(val) != 0 ==> post@ == rng_notified(d@),
        off != 0x50 ==> post@ == d@.written(off, low32(val)),
        r matches Ok(x) && x == d@.register(off),
{
    lemma_low32(val);
    assert(d@.notified() == rng_notified(d@));
}

/// A write to a balloon never fails. At 0x50 it works through the queue that it names; elsewhere it
/// goes to the registers. A read gives what the register holds.
pub proof fn law_balloon_is_accessed<
    D: Fn(GuestMemoryMmap, u64, u64) -> (GuestMemoryMmap, bool) + Send + Sync,
>(
    d: &VirtioBalloonMmio<D>,
    off: u64,
    val: u64,
    len: u8,
    post: &VirtioBalloonMmio<D>,
    w: MmioWriteResult,
    r: MmioReadResult,
)
    requires
        d.writes(off, val, len, post, w),
        d.reads(off, len, r),
    ensures
        w is Ok,
        off == 0x50 ==> exists|done: nat|
            #[trigger] balloon::balloon_kicked(d.discard, d@, low32(val) as int, post@, done),
        off != 0x50 ==> post@ == d@.written(off, low32(val)),
        r matches Ok(x) && x == d@.register(off),
{
    lemma_low32(val);
}

/// A write to a vsock device that has failed is refused and changes nothing, unless it is a reset.
/// Any other write succeeds. At 0x50 it counts a notification; for queue 0 what waits then goes to
/// the guest, for queue 1 what the guest sent is handled. Elsewhere it goes to the registers. A read
/// gives what the register holds.
pub proof fn law_vsock_is_accessed<L: HostVsockListener>(
    d: &VirtioVsockMmio<L>,
    off: u64,
    val: u64,
    len: u8,
    post: &VirtioVsockMmio<L>,
    w: MmioWriteResult,
    r: MmioReadResult,
)
    requires
        d.writes(off, val, len, post, w),
        d.reads(off, len, r),
    ensures
        ({
            let listener = d.bridge.connector();
            let v = low32(val);
            let notified = VsockView { notify_count: one_more(d@.notify_count), ..d@ };
            &&& post.bridge.connector() == listener
            &&& if d@.failed() && !(off == 0x70 && v == 0) {
                w == Err::<(), MmioError>(MmioError::Device) && post@ == d@
            } else {
                &&& w is Ok
                &&& off == 0x50 && v == 0 ==> exists|n: nat|
                    #[trigger] vsock::rx_processed(notified, post@, n)
                &&& off == 0x50 && v == 1 ==> exists|n: nat|
                    #[trigger] vsock::tx_processed(listener, notified, post@, n)
                &&& off == 0x50 && v > 1 ==> post@ == notified
                &&& off != 0x50 ==> post@ == d@.written(off, v)
            }
            &&& r matches Ok(x) && x == d@.register(off, len)
        }),
{
    lemma_low32(val);
    let notified = VsockView { notify_count: one_more(d@.notify_count), ..d@ };
    assert(d@.notified() == notified);
}

} // verus!
