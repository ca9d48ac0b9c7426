//! What a device that took back a snapshot has of the device that was saved, and how interrupts
//! are taken.
use crate::persist::Persist;
use crate::virtio::balloon::{BalloonView, VirtioBalloonMmio, VirtioBalloonMmioState};
use crate::virtio::blk_backend::disk::DiskOp;
use crate::virtio::blk_transport::{BlkMmioView, VirtioBlkMmio, VirtioBlkMmioState};
use crate::virtio::net_transport::{NetMmioView, VirtioNetMmio, VirtioNetMmioState};
use crate::virtio::queue_state::QueueState;
use crate::virtio::rng_transport::{RngMmioView, VirtioRngMmio, VirtioRngMmioState};
use crate::virtio::vqueue::VirtQueueProcessor;
use crate::virtio::vsock::connections::HostVsockListener;
use crate::virtio::vsock::{VirtioVsockMmio, VirtioVsockMmioState, VsockView};
use vstd::prelude::*;

verus! {

/// `p` takes up queue `i` where `was` left it, with the queue as its registers describe it. Where
/// there was none, there is none.
pub open spec fn takes_up(
    queues: Seq<QueueState>,
    i: int,
    was: Option<VirtQueueProcessor>,
    p: Option<VirtQueueProcessor>,
) -> bool {
    match was {
        None => p is None,
        Some(w) => {
            &&& p is Some
            &&& p->0.last_avail_idx == w.last_avail_idx
            &&& p->0.last_used_idx == w.last_used_idx
            &&& 0 <= i < queues.len() ==> {
                &&& p->0.config.size == queues[i].size
                &&& p->0.config.desc_table_addr == queues[i].desc_table_addr
                &&& p->0.config.avail_ring_addr == queues[i].avail_ring_addr
                &&& p->0.config.used_ring_addr == queues[i].used_ring_addr
                &&& p->0.config.ready == queues[i].ready
            }
        },
    }
}

/// A block device that takes back the state of another has its registers and queues and goes on
/// where it stood in the queue. The rest, the disk among it, stays its own.
pub proof fn law_blk_comes_back<IO: Fn(DiskOp) -> Option<Vec<u8>>>(
    a: &VirtioBlkMmio<IO>,
    s: VirtioBlkMmioState,
)
    requires
        call_ensures(<VirtioBlkMmio<IO> as Persist>::save, (a,), s),
    ensures
        forall|b: &mut VirtioBlkMmio<IO>| #[trigger]
            call_ensures(<VirtioBlkMmio<IO> as Persist>::restore, (b, s), ()) ==> {
                let r = (*final(b))@;
                &&& r.regs == a@.regs
                &&& r.queues == a@.queues
                &&& takes_up(a@.queues, 0, a@.processor, r.processor)
                &&& r == BlkMmioView {
                    regs: r.regs,
                    queues: r.queues,
                    processor: r.processor,
                    ..(*b)@
                }
                &&& (*final(b)).backend == (*b).backend
            },
{
}

/// A network device that takes back the state of another has its queues, and its registers but for
/// the upper half of the features that the driver took, which stays its own. It goes on where the
/// other stood in both queues.
pub proof fn law_net_comes_back<TAP: Fn(&[u8]) -> i64>(
    a: &VirtioNetMmio<TAP>,
    s: VirtioNetMmioState,
)
    requires
        call_ensures(<VirtioNetMmio<TAP> as Persist>::save, (a,), s),
    ensures
        forall|b: &mut VirtioNetMmio<TAP>| #[trigger]
            call_ensures(<VirtioNetMmio<TAP> as Persist>::restore, (b, s), ()) ==> {
                let r = (*final(b))@;
                &&& r.regs.status == a@.regs.status
                &&& r.regs.queue_sel == a@.regs.queue_sel
                &&& r.regs.host_features_sel == a@.regs.host_features_sel
                &&& r.regs.guest_features_sel == a@.regs.guest_features_sel
                &&& r.regs.guest_features_low == a@.regs.guest_features_low
                &&& r.regs.guest_features_high == (*b)@.regs.guest_features_high
                &&& r.regs.activated == a@.regs.activated
                &&& r.regs.interrupt_status == a@.regs.interrupt_status
                &&& r.queues == a@.queues
                &&& takes_up(a@.queues, 0, a@.rx_processor, r.rx_processor)
                &&& takes_up(a@.queues, 1, a@.tx_processor, r.tx_processor)
                &&& r == NetMmioView {
                    regs: r.regs,
                    queues: r.queues,
                    rx_processor: r.rx_processor,
                    tx_processor: r.tx_processor,
                    ..(*b)@
                }
                &&& (*final(b)).tap == (*b).tap
            },
{
}

/// An entropy device that takes back the state of another has its registers and queues. Entropy
/// is its own, and it starts over on the queue.
pub proof fn law_rng_comes_back(a: &VirtioRngMmio, s: VirtioRngMmioState)
    requires
        call_ensures(<VirtioRngMmio as Persist>::save, (a,), s),
    ensures
        forall|b: &mut VirtioRngMmio| #[trigger]
            call_ensures(<VirtioRngMmio as Persist>::restore, (b, s), ()) ==> {
                let r = (*final(b))@;
                &&& r.regs == a@.regs
                &&& r.queues == a@.queues
                &&& r == RngMmioView {
                    regs: r.regs,
                    queues: r.queues,
                    processor: None,
                    ..(*b)@
                }
            },
{
}

/// A balloon that takes back the state of another has its registers, queues and page counts, and
/// goes on where the other stood in each queue that is ready.
pub proof fn law_balloon_comes_back<DISCARD: Fn(u64, u64) -> bool>(
    a: &VirtioBalloonMmio<DISCARD>,
    s: VirtioBalloonMmioState,
)
    requires
        call_ensures(<VirtioBalloonMmio<DISCARD> as Persist>::save, (a,), s),
    ensures
        forall|b: &mut VirtioBalloonMmio<DISCARD>| #[trigger]
            call_ensures(<VirtioBalloonMmio<DISCARD> as Persist>::restore, (b, s), ()) ==> {
                let r = (*final(b))@;
                &&& r.regs == a@.regs
                &&& r.queues == a@.queues
                &&& r.config_generation == a@.config_generation
                &&& r.target_pages == a@.target_pages
                &&& r.actual_pages == a@.actual_pages
                &&& r.processors.len() == a@.processors.len()
                &&& forall|i: int|
                    0 <= i < a@.processors.len() ==> if i < a@.queues.len() && a@.queues[i].ready
                        && a@.queues[i].sized() {
                        takes_up(a@.queues, i, a@.processors[i], #[trigger] r.processors[i])
                    } else {
                        r.processors[i] is None
                    }
                &&& r == BalloonView {
                    regs: r.regs,
                    queues: r.queues,
                    processors: r.processors,
                    config_generation: r.config_generation,
                    target_pages: r.target_pages,
                    actual_pages: r.actual_pages,
                    ..(*b)@
                }
            },
{
}

/// A vsock device that takes back the state of another has its registers and queues, and will go
/// on where the other stood in each queue. It has no connection, and nothing waits for the guest.
pub proof fn law_vsock_comes_back<L: HostVsockListener>(
    a: &VirtioVsockMmio<L>,
    s: VirtioVsockMmioState,
)
    requires
        call_ensures(<VirtioVsockMmio<L> as Persist>::save, (a,), s),
    ensures
        forall|b: &mut VirtioVsockMmio<L>| #[trigger]
            call_ensures(<VirtioVsockMmio<L> as Persist>::restore, (b, s), ()) ==> {
                let r = (*final(b))@;
                &&& r.regs == a@.regs
                &&& r.queues == a@.queues
                &&& r.positions.len() == a@.positions.len()
                &&& forall|i: int|
                    0 <= i < r.positions.len() ==> {
                        let p = #[trigger] r.positions[i];
                        if i == 0 && a@.rx_processor is Some {
                            p.last_avail_idx == a@.rx_processor->0.last_avail_idx
                                && p.last_used_idx == a@.rx_processor->0.last_used_idx
                        } else if i == 1 && a@.tx_processor is Some {
                            p.last_avail_idx == a@.tx_processor->0.last_avail_idx
                                && p.last_used_idx == a@.tx_processor->0.last_used_idx
                        } else {
                            p == a@.positions[i]
                        }
                    }
                &&& r.rx_processor is None
                &&& r.tx_processor is None
                &&& r.bridge.connections.len() == 0
                &&& r.bridge.pending.len() == 0
                &&& r.bridge.dialed == (*b)@.bridge.dialed
                &&& r == VsockView {
                    regs: r.regs,
                    queues: r.queues,
                    positions: r.positions,
                    rx_processor: None,
                    tx_processor: None,
                    bridge: r.bridge,
                    ..(*b)@
                }
            },
{
}

/// Interrupts are taken once: all that wait are given, none is left, and nothing else changes.
pub proof fn law_interrupts_are_taken_once<
    IO: Fn(DiskOp) -> Option<Vec<u8>>,
    TAP: Fn(&[u8]) -> i64,
    DISCARD: Fn(u64, u64) -> bool,
    L: HostVsockListener,
>(n: u64)
    ensures
        forall|d: &mut VirtioBlkMmio<IO>| #[trigger]
            call_ensures(VirtioBlkMmio::<IO>::take_irqs, (d,), n) ==> {
                let (s, t) = ((*d)@, (*final(d))@);
                n == s.pending_irqs && t.pending_irqs == 0 && s == BlkMmioView {
                    pending_irqs: n,
                    ..t
                }
            },
        forall|d: &mut VirtioNetMmio<TAP>| #[trigger]
            call_ensures(VirtioNetMmio::<TAP>::take_irqs, (d,), n) ==> {
                let (s, t) = ((*d)@, (*final(d))@);
                n == s.pending_irqs && t.pending_irqs == 0 && s == NetMmioView {
                    pending_irqs: n,
                    ..t
                }
            },
        forall|d: &mut VirtioRngMmio| #[trigger]
            call_ensures(VirtioRngMmio::take_irqs, (d,), n) ==> {
                let (s, t) = ((*d)@, (*final(d))@);
                n == s.pending_irqs && t.pending_irqs == 0 && s == RngMmioView {
                    pending_irqs: n,
                    ..t
                }
            },
        forall|d: &mut VirtioBalloonMmio<DISCARD>| #[trigger]
            call_ensures(VirtioBalloonMmio::<DISCARD>::take_irqs, (d,), n) ==> {
                let (s, t) = ((*d)@, (*final(d))@);
                n == s.pending_irqs && t.pending_irqs == 0 && s == BalloonView {
                    pending_irqs: n,
                    ..t
                }
            },
        forall|d: &mut VirtioVsockMmio<L>| #[trigger]
            call_ensures(VirtioVsockMmio::<L>::take_irqs, (d,), n) ==> {
                let (s, t) = ((*d)@, (*final(d))@);
                n == s.pending_irqs && t.pending_irqs == 0 && s == VsockView {
                    pending_irqs: n,
                    ..t
                }
            },
{
}

} // verus!
