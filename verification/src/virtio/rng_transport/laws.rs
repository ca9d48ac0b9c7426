//! Which bytes of the host's source the guest finds in its buffers.
use crate::guest_memory;
use crate::virtio::buffers::laws as places;
use crate::virtio::buffers::{self, MemState};
use crate::virtio::rng::entropy::EntropyDraw;
use crate::virtio::rng::RngView;
use crate::virtio::rng_transport::{self, RngMmioView};
use crate::virtio::transport_regs::TransportRegs;
use crate::virtio::vqueue::trace_laws::{self, Turn};
use crate::virtio::vqueue::{self, Pass, QueueConfig};
use vstd::prelude::*;

verus! {

/// How many of the first `k` buffers have any room.
pub open spec fn roomy(bufs: Seq<(u64, u32)>, k: int) -> int
    decreases k,
{
    if k <= 0 {
        0
    } else {
        roomy(bufs, k - 1) + (if bufs[k - 1].1 > 0 {
            1int
        } else {
            0
        })
    }
}

proof fn lemma_roomy_skip(bufs: Seq<(u64, u32)>, k: int)
    requires
        0 <= k < bufs.len(),
    ensures
        roomy(bufs, k + 1) == roomy(bufs.skip(1), k) + (if bufs[0].1 > 0 {
            1int
        } else {
            0
        }),
    decreases k,
{
    if k > 0 {
        lemma_roomy_skip(bufs, k - 1);
        assert(bufs.skip(1)[k - 1] == bufs[k]);
    } else {
        assert(roomy(bufs, 1) == roomy(bufs, 0) + (if bufs[0].1 > 0 {
            1int
        } else {
            0
        }));
    }
}

proof fn lemma_roomy_grows(bufs: Seq<(u64, u32)>, i: int, k: int)
    requires
        0 <= i <= k,
    ensures
        0 <= roomy(bufs, i) <= roomy(bufs, k),
    decreases k,
{
    if i < k {
        lemma_roomy_grows(bufs, i, k - 1);
    } else if k > 0 {
        lemma_roomy_grows(bufs, k - 1, k - 1);
    }
}

/// The bytes that the host gave for buffer `k`, if it was asked for them and gave any: each buffer
/// with room is asked for once, in order.
pub open spec fn given_for(
    then: Seq<EntropyDraw>,
    now: Seq<EntropyDraw>,
    bufs: Seq<(u64, u32)>,
    k: int,
) -> Option<Seq<u8>> {
    let d = then.len() + roomy(bufs, k);
    if d < now.len() {
        now[d].bytes
    } else {
        None
    }
}

/// What filling the buffers came to. The host was asked once for each buffer with room, in order,
/// for exactly as many bytes, until it gave none. What it gave for a buffer is what that buffer
/// holds, all of it; a buffer for which it gave none keeps what it had, and so does all other
/// memory. The bytes that it gave are counted.
pub open spec fn fills(
    s: RngView,
    m: MemState,
    bufs: Seq<(u64, u32)>,
    t: RngView,
    m2: MemState,
) -> bool {
    let asked = t.draws.len() - s.draws.len();
    let all = roomy(bufs, bufs.len() as int);
    &&& 0 <= asked <= all
    &&& forall|i: int| 0 <= i < s.draws.len() ==> #[trigger] t.draws[i] == s.draws[i]
    &&& forall|k: int|
        0 <= k < bufs.len() && (#[trigger] bufs[k]).1 > 0 && roomy(bufs, k) < asked ==> {
            let d = t.draws[s.draws.len() + roomy(bufs, k)];
            d.len == bufs[k].1 && (d.bytes matches Some(b) ==> b.len() == bufs[k].1)
        }
    &&& forall|i: int|
        s.draws.len() <= i < t.draws.len() - 1 ==> (#[trigger] t.draws[i]).bytes is Some
    &&& asked < all ==> asked > 0 && t.draws.last().bytes is None
    &&& forall|k: int, j: int| #[trigger]
        places::is_place(bufs, k, j) ==> m2.ram[bufs[k].0 + j] == (match given_for(
            s.draws,
            t.draws,
            bufs,
            k,
        ) {
            Some(b) => b[j],
            None => m.ram[bufs[k].0 + j],
        })
    &&& forall|a: int|
        m.ram.dom().contains(a) && !places::in_any(bufs, a) ==> #[trigger] m2.ram[a] == m.ram[a]
}

/// The buffers of a chain are filled with what the host gave for them, each to its end.
#[verifier::spinoff_prover]
#[verifier::rlimit(60)]
pub proof fn law_rng_fills_every_buffer(
    s: RngView,
    m: MemState,
    bufs: Seq<(u64, u32)>,
    used: int,
    t: RngView,
    m2: MemState,
    used2: int,
)
    requires
        rng_transport::rng_fills(s, m, bufs, used, t, m2, used2),
        buffers::all_mapped(m.ram, bufs),
        places::apart(bufs),
    ensures
        m2.ram.dom() == m.ram.dom(),
        fills(s, m, bufs, t, m2),
    decreases bufs.len(),
{
    if bufs.len() > 0 {
        let rest = bufs.skip(1);
        lemma_rest(m.ram, bufs);
        lemma_roomy_skip(bufs, bufs.len() - 1);
        lemma_roomy_grows(bufs, 0, bufs.len() as int);
        lemma_roomy_grows(rest, 0, rest.len() as int);
        if bufs[0].1 == 0 {
            law_rng_fills_every_buffer(s, m, rest, used, t, m2, used2);
            lemma_one_more_filled(s, m, bufs, s, m, t, m2);
        } else {
            let d = choose|d: EntropyDraw|
                #![trigger s.drawn(d)]
                d.answered() && d.len == bufs[0].1 && match d.bytes {
                    None => t == s.drawn(d) && m2 == m && used2 == used,
                    Some(bytes) => bytes.len() == d.len && rng_transport::rng_fills(
                        s.drawn(d),
                        m.store(bufs[0].0 as int, bytes),
                        rest,
                        used + bufs[0].1,
                        t,
                        m2,
                        used2,
                    ),
                };
            match d.bytes {
                None => {
                    lemma_none_filled(s, m, bufs, t, d);
                },
                Some(b) => {
                    let first = m.store(bufs[0].0 as int, b);
                    guest_memory::lemma_ram_write_dom(m.ram, bufs[0].0 as int, b);
                    buffers::lemma_all_mapped_dom(m.ram, first.ram, rest);
                    law_rng_fills_every_buffer(
                        s.drawn(d),
                        first,
                        rest,
                        used + bufs[0].1,
                        t,
                        m2,
                        used2,
                    );
                    lemma_one_more_filled(s, m, bufs, s.drawn(d), first, t, m2);
                },
            }
        }
    }
}

proof fn lemma_rest(ram: Map<int, u8>, bufs: Seq<(u64, u32)>)
    requires
        bufs.len() > 0,
        buffers::all_mapped(ram, bufs),
        places::apart(bufs),
    ensures
        buffers::all_mapped(ram, bufs.skip(1)),
        places::apart(bufs.skip(1)),
{
    let rest = bufs.skip(1);
    assert forall|i: int| 0 <= i < rest.len() implies (#[trigger] rest[i]).1 == 0
        || guest_memory::is_mapped(ram, rest[i].0 as int, rest[i].1 as int) by {
        assert(rest[i] == bufs[i + 1]);
    }
    assert forall|i: int, j: int, a: int|
        0 <= i < j < rest.len() && #[trigger] places::within(rest[i], a) implies !#[trigger] places::within(
        rest[j], a) by {
        assert(rest[i] == bufs[i + 1] && rest[j] == bufs[j + 1]);
        assert(places::within(bufs[i + 1], a));
    }
}

/// The host gave nothing for the first buffer with room.
proof fn lemma_none_filled(
    s: RngView,
    m: MemState,
    bufs: Seq<(u64, u32)>,
    t: RngView,
    d: EntropyDraw,
)
    requires
        bufs.len() > 0,
        bufs[0].1 > 0,
        t == s.drawn(d),
        d.bytes is None,
        d.len == bufs[0].1,
    ensures
        fills(s, m, bufs, t, m),
{
    lemma_roomy_grows(bufs, 1, bufs.len() as int);
    assert(roomy(bufs, 0) == 0);
    assert(roomy(bufs, 1) == 1);
    assert forall|k: int|
        0 <= k < bufs.len() && (#[trigger] bufs[k]).1 > 0 && roomy(bufs, k) < 1 implies k == 0 by {
        if k > 0 {
            lemma_roomy_grows(bufs, 1, k);
        }
    }
    assert forall|k: int, j: int| #[trigger] places::is_place(bufs, k, j) implies given_for(
        s.draws,
        t.draws,
        bufs,
        k,
    ) is None by {
        lemma_roomy_grows(bufs, 0, k);
    }
}

/// With the first buffer dealt with, the rest make up the whole.
#[verifier::spinoff_prover]
#[verifier::rlimit(60)]
proof fn lemma_one_more_filled(
    s: RngView,
    m: MemState,
    bufs: Seq<(u64, u32)>,
    s1: RngView,
    m1: MemState,
    t: RngView,
    m2: MemState,
)
    requires
        bufs.len() > 0,
        buffers::all_mapped(m.ram, bufs),
        places::apart(bufs),
        fills(s1, m1, bufs.skip(1), t, m2),
        m1.ram.dom() == m.ram.dom(),
        bufs[0].1 == 0 ==> s1 == s && m1 == m,
        bufs[0].1 > 0 ==> {
            let d = s1.draws.last();
            &&& s1.draws == s.draws.push(d)
            &&& d.len == bufs[0].1
            &&& d.bytes matches Some(b) && b.len() == bufs[0].1 && m1 == m.store(
                bufs[0].0 as int,
                b,
            )
        },
    ensures
        fills(s, m, bufs, t, m2),
{
    let rest = bufs.skip(1);
    let one: int = if bufs[0].1 > 0 {
        1
    } else {
        0
    };
    let n = s.draws.len() as int;
    assert(s1.draws.len() == n + one);
    lemma_roomy_skip(bufs, bufs.len() - 1);
    lemma_roomy_grows(rest, 0, rest.len() as int);
    assert forall|i: int| 0 <= i < n implies #[trigger] t.draws[i] == s.draws[i] by {
        assert(t.draws[i] == s1.draws[i]);
    }
    if one == 1 {
        assert(t.draws[n] == s1.draws[n]);
        assert(s1.draws[n] == s1.draws.last());
    }
    assert forall|k: int|
        0 <= k < bufs.len() && (#[trigger] bufs[k]).1 > 0 && roomy(bufs, k) < t.draws.len()
            - n implies {
        let d = t.draws[n + roomy(bufs, k)];
        d.len == bufs[k].1 && (d.bytes matches Some(b) ==> b.len() == bufs[k].1)
    } by {
        if k > 0 {
            lemma_roomy_skip(bufs, k - 1);
            assert(rest[k - 1] == bufs[k]);
        }
    }
    assert forall|k: int, j: int| #[trigger] places::is_place(bufs, k, j) implies m2.ram[bufs[k].0
        + j] == (match given_for(s.draws, t.draws, bufs, k) {
        Some(b) => b[j],
        None => m.ram[bufs[k].0 + j],
    }) by {
        let a = bufs[k].0 + j;
        assert(places::within(bufs[k], a));
        assert(guest_memory::is_mapped(m.ram, bufs[k].0 as int, bufs[k].1 as int));
        assert(m.ram.dom().contains(a));
        if k == 0 {
            if places::in_any(rest, a) {
                let i = choose|i: int| 0 <= i < rest.len() && #[trigger] places::within(rest[i], a);
                assert(rest[i] == bufs[i + 1]);
                assert(places::within(bufs[0], a) && places::within(bufs[i + 1], a));
            }
            assert(m2.ram[a] == m1.ram[a]);
        } else {
            lemma_roomy_skip(bufs, k - 1);
            assert(rest[k - 1] == bufs[k]);
            assert(places::is_place(rest, k - 1, j));
            assert(!places::within(bufs[0], a));
            assert(m1.ram[a] == m.ram[a]);
        }
    }
    assert forall|a: int| m.ram.dom().contains(a) && !places::in_any(bufs, a) implies #[trigger] m2.ram[a]
        == m.ram[a] by {
        if places::in_any(rest, a) {
            let i = choose|i: int| 0 <= i < rest.len() && #[trigger] places::within(rest[i], a);
            assert(rest[i] == bufs[i + 1]);
            assert(places::within(bufs[i + 1], a));
        }
        assert(!places::within(bufs[0], a));
        assert(m2.ram[a] == m1.ram[a]);
    }
    assert forall|i: int| n <= i < t.draws.len() - 1 implies (#[trigger] t.draws[i]).bytes is Some by {
        if i >= s1.draws.len() {
            assert(t.draws[i].bytes is Some);
        }
    }
}

/// The turn of a chain is as [`fills`] says where its buffers do not overlap, and it goes back with
/// the number of bytes that were counted.
pub open spec fn is_filled(turn: Turn<RngView>) -> bool {
    &&& turn.answer is Some
    &&& turn.work.bytes_served == (turn.at.work.bytes_served + turn.answer->0)
        % 0x1_0000_0000_0000_0000
    &&& places::apart(turn.chain.writable) ==> fills(
        turn.at.work,
        turn.at.pass.mem,
        turn.chain.writable,
        turn.work,
        turn.mem,
    )
}

proof fn lemma_is_filled(config: QueueConfig, target: u16, from: Pass<RngView>, turn: Turn<RngView>)
    requires
        trace_laws::reaches(config, target, from, turn),
        rng_transport::rng_step()(
            turn.at.work,
            turn.at.pass.mem,
            turn.chain,
            turn.work,
            turn.mem,
            turn.answer,
        ),
    ensures
        is_filled(turn),
{
    vqueue::lemma_chain_buffers(turn.at.pass.mem.ram, config, turn.head);
    rng_transport::law_rng_counts_what_it_stores(
        turn.at.work,
        turn.at.pass.mem,
        turn.chain.writable,
        0,
        turn.work,
        turn.mem,
        turn.answer->0 as int,
    );
    if places::apart(turn.chain.writable) {
        law_rng_fills_every_buffer(
            turn.at.work,
            turn.at.pass.mem,
            turn.chain.writable,
            0,
            turn.work,
            turn.mem,
            turn.answer->0 as int,
        );
    }
}

/// A kick of the queue works through it chain by chain, from where the device stood to the index
/// that the guest has set, and leaves none waiting. The guest is interrupted where a chain went
/// back. Nothing else of the device changes.
#[verifier::spinoff_prover]
#[verifier::rlimit(60)]
pub proof fn law_rng_kick_fills_every_chain(s: RngMmioView, t: RngMmioView, done: nat) -> (r: (
    Seq<Pass<RngView>>,
    Seq<Turn<RngView>>,
    Pass<RngView>,
))
    requires
        rng_transport::rng_kicked(s, 0, t, done),
        s.can_process(),
        vqueue::queue_usable(s.ram->0, s.queues[0].config()),
    ensures
        ({
            let config = s.queues[0].config();
            let target = trace_laws::word16(s.ram->0, config.avail_ring_addr + 2) as u16;
            let (states, turns, end) = r;
            &&& trace_laws::starts_at(s.processor, s.ram->0, s.dirty, states[0].pass)
            &&& states[0].work == s.rng
            &&& trace_laws::in_turn(rng_transport::rng_step(), config, target, states, turns)
            &&& forall|k: int| 0 <= k < turns.len() ==> is_filled(#[trigger] turns[k])
            &&& trace_laws::ends(config, target, states, turns, end)
            &&& trace_laws::is_over(config, end.pass, t.processor, t.ram->0, t.dirty)
            &&& t.rng == end.work
            &&& done == end.pass.done
            &&& if done > 0 {
                &&& t.regs == TransportRegs {
                    interrupt_status: s.regs.interrupt_status | 1,
                    ..s.regs
                }
                &&& t.pending_irqs == (s.pending_irqs + 1) % 0x1_0000_0000_0000_0000
            } else {
                t.regs == s.regs && t.pending_irqs == s.pending_irqs
            }
            &&& t == RngMmioView {
                rng: t.rng,
                processor: t.processor,
                ram: t.ram,
                dirty: t.dirty,
                regs: t.regs,
                pending_irqs: t.pending_irqs,
                ..s
            }
            &&& t.ram is Some
            &&& t.dirty is Some == s.dirty is Some
        }),
{
    let config = s.queues[0].config();
    trace_laws::law_rings_stand_in_memory(s.ram->0, config, 0);
    let target = vqueue::avail_ring_idx(s.ram->0, config);
    let w = lemma_kick_pass(s, t, done);
    let (states, turns) = lemma_kick_trace(config, target, s.pass_start(), w);
    trace_laws::lemma_is_over(
        config,
        w.pass,
        vqueue::used_idx_stored(w.pass.mem, config, w.pass.used),
    );
    (states, turns, w)
}

proof fn lemma_kick_pass(s: RngMmioView, t: RngMmioView, done: nat) -> (w: Pass<RngView>)
    requires
        rng_transport::rng_kicked(s, 0, t, done),
        s.can_process(),
        vqueue::queue_usable(s.ram->0, s.queues[0].config()),
    ensures
        vqueue::device_pass(
            rng_transport::rng_step(),
            s.queues[0].config(),
            vqueue::avail_ring_idx(s.ram->0, s.queues[0].config()),
            s.pass_start(),
            w,
        ),
        t == s.pass_finished(w),
        done == w.pass.done,
{
    choose|w: Pass<RngView>|
        #[trigger] vqueue::device_pass(
            rng_transport::rng_step(),
            s.queues[0].config(),
            vqueue::avail_ring_idx(s.ram->0, s.queues[0].config()),
            s.pass_start(),
            w,
        ) && t == s.pass_finished(w) && done == w.pass.done
}

proof fn lemma_kick_trace(
    config: QueueConfig,
    target: u16,
    s: Pass<RngView>,
    w: Pass<RngView>,
) -> (r: (Seq<Pass<RngView>>, Seq<Turn<RngView>>))
    requires
        config.size > 0,
        vqueue::device_pass(rng_transport::rng_step(), config, target, s, w),
    ensures
        r.0.len() > 0 && r.0[0] == s,
        trace_laws::in_turn(rng_transport::rng_step(), config, target, r.0, r.1),
        trace_laws::ends(config, target, r.0, r.1, w),
        forall|k: int| 0 <= k < r.1.len() ==> is_filled(#[trigger] r.1[k]),
{
    let (states, turns) = trace_laws::law_pass_goes_in_turn(
        rng_transport::rng_step(),
        config,
        target,
        s,
        w,
    );
    assert forall|k: int| 0 <= k < turns.len() implies is_filled(#[trigger] turns[k]) by {
        lemma_is_filled(config, target, states[k], turns[k]);
    }
    (states, turns)
}

} // verus!
