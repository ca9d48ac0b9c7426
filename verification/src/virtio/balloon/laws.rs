//! What a balloon request names and does.
use crate::bytes;
use crate::virtio::balloon::pages::{self, PageRun};
use crate::virtio::balloon::{self, BalloonCounts, BalloonView, VirtioBalloonMmio};
use crate::virtio::buffers::laws as places;
use crate::virtio::buffers::{self, MemState};
use crate::virtio::transport_regs::TransportRegs;
use crate::virtio::vqueue::trace_laws::{self, Turn};
use crate::virtio::vqueue::{self, ChainView, Pass};
use vm_memory::GuestMemoryMmap;
use vstd::prelude::*;

verus! {

/// The 32-bit integer at offset `i`, least significant byte first.
pub open spec fn int32(b: Seq<u8>, i: int) -> int {
    b[i] + 256 * b[i + 1] + 65536 * b[i + 2] + 16777216 * b[i + 3]
}

/// A request names as many pages as it has whole 32-bit numbers: between one and 256, all of them
/// within guest memory. It is refused exactly where it has a buffer for an answer, an empty or
/// uneven buffer, no number or more than 256, or a number of a page that is not there.
pub proof fn law_request_names_its_pages(
    ram: Map<int, u8>,
    size_bytes: u64,
    readable: Seq<(u64, u32)>,
    writable: Seq<(u64, u32)>,
)
    requires
        buffers::all_mapped(ram, readable),
    ensures
        ({
            let n = places::start_of(readable, readable.len() as int);
            let b = buffers::gather(ram, readable);
            &&& pages::parsed_pfns(ram, size_bytes, readable, writable) is Some <==> {
                &&& writable.len() == 0
                &&& forall|k: int|
                    0 <= k < readable.len() ==> (#[trigger] readable[k]).1 > 0 && readable[k].1 % 4
                        == 0
                &&& 0 < n <= 1024
                &&& forall|i: int|
                    0 <= i < n / 4 ==> (#[trigger] int32(b, 4 * i) + 1) * 4096 <= size_bytes
            }
            &&& pages::parsed_pfns(ram, size_bytes, readable, writable) matches Some(pfns) ==> {
                &&& pfns.len() == n / 4
                &&& forall|i: int| 0 <= i < pfns.len() ==> #[trigger] pfns[i] == int32(b, 4 * i)
            }
        }),
{
    let n = places::start_of(readable, readable.len() as int);
    let b = buffers::gather(ram, readable);
    let pfns = pages::pfns_in(b);
    places::law_gather_reads_every_byte(ram, readable);
    assert forall|i: int| 0 <= i < n / 4 implies #[trigger] pfns[i] == int32(b, 4 * i) by {
        bytes::lemma_le32_stands(b, 4 * i);
    }
    if pages::parsed_pfns(ram, size_bytes, readable, writable) is Some {
        assert forall|i: int| 0 <= i < n / 4 implies (#[trigger] int32(b, 4 * i) + 1) * 4096
            <= size_bytes by {
            assert(pages::page_fits(pfns[i], size_bytes));
        }
    }
    if forall|i: int| 0 <= i < n / 4 ==> (#[trigger] int32(b, 4 * i) + 1) * 4096 <= size_bytes {
        assert forall|i: int| 0 <= i < pfns.len() implies pages::page_fits(
            #[trigger] pfns[i],
            size_bytes,
        ) by {
            assert((int32(b, 4 * i) + 1) * 4096 <= size_bytes);
        }
    }
}

/// The host is asked to take the runs one after the other, each from the first byte of its first
/// page to the last byte of its last, until it refuses one. All is well exactly where it took all.
pub proof fn law_runs_are_given_back_in_turn<
    D: Fn(GuestMemoryMmap, u64, u64) -> (GuestMemoryMmap, bool),
>(discard: D, ram: Map<int, u8>, runs: Seq<PageRun>, ram2: Map<int, u8>, ok: bool) -> (rams: Seq<
    Map<int, u8>,
>)
    requires
        pages::discards(discard, ram, runs, ram2, ok),
        forall|i: int| 0 <= i < runs.len() ==> (#[trigger] runs[i]).first <= runs[i].last,
    ensures
        1 <= rams.len() <= runs.len() + 1,
        rams[0] == ram,
        rams.last() == ram2,
        ok ==> rams.len() == runs.len() + 1,
        !ok ==> rams.len() > 1,
        forall|i: int|
            0 <= i < rams.len() - 1 ==> was_asked(
                discard,
                #[trigger] rams[i],
                runs[i],
                rams[i + 1],
                ok || i < rams.len() - 2,
            ),
    decreases runs.len(),
{
    if runs.len() == 0 {
        seq![ram]
    } else {
        let run = runs[0];
        let (r, b) = choose|r: Map<int, u8>, b: bool|
            #[trigger] pages::discard_answer(discard, ram, run.gpa(), run.bytes(), r, b) && if b {
                pages::discards(discard, r, runs.skip(1), ram2, ok)
            } else {
                ram2 == r && !ok
            };
        assert(was_asked(discard, ram, run, r, b));
        if b {
            let rest = runs.skip(1);
            assert forall|i: int| 0 <= i < rest.len() implies (#[trigger] rest[i]).first
                <= rest[i].last by {
                assert(rest[i] == runs[i + 1]);
            }
            let later = law_runs_are_given_back_in_turn(discard, r, rest, ram2, ok);
            let rams = seq![ram] + later;
            assert forall|i: int| 0 <= i < rams.len() - 1 implies was_asked(
                discard,
                #[trigger] rams[i],
                runs[i],
                rams[i + 1],
                ok || i < rams.len() - 2,
            ) by {
                if i > 0 {
                    assert(rams[i] == later[i - 1]);
                    assert(rams[i + 1] == later[i]);
                    assert(runs[i] == rest[i - 1]);
                } else {
                    assert(rams[1] == later[0]);
                }
            }
            rams
        } else {
            seq![ram, r]
        }
    }
}

/// The host was asked to take the pages from `run.first` to `run.last`, each of 4096 bytes.
pub open spec fn was_asked<D: Fn(GuestMemoryMmap, u64, u64) -> (GuestMemoryMmap, bool)>(
    discard: D,
    ram: Map<int, u8>,
    run: PageRun,
    ram2: Map<int, u8>,
    ok: bool,
) -> bool {
    pages::discard_answer(
        discard,
        ram,
        (run.first * 4096) as u64,
        ((run.last + 1 - run.first) * 4096) as u64,
        ram2,
        ok,
    )
}

/// `n` after `k` more, in 64 bits that wrap around.
pub open spec fn wrapped(n: u64, k: int) -> int {
    (n + k) % 0x1_0000_0000_0000_0000
}

/// What a request comes to. A malformed one counts as refused, and no page is given back. On the
/// inflate queue the host is asked to take the pages, as [`pages::inflates`] says; where it took
/// all, as many as there are different ones count as given up, else the request counts as refused.
/// On the deflate queue the pages count as taken again, and memory stays.
pub open spec fn does<D: Fn(GuestMemoryMmap, u64, u64) -> (GuestMemoryMmap, bool)>(
    discard: D,
    size_bytes: u64,
    inflate: bool,
    w: BalloonCounts,
    m: MemState,
    chain: ChainView,
    w2: BalloonCounts,
    m2: MemState,
    answer: Option<u32>,
) -> bool {
    let refused = BalloonCounts { rejected_pfns: wrapped(w.rejected_pfns, 1) as u64, ..w };
    &&& answer == Some(0u32)
    &&& m2.marks == m.marks
    &&& match pages::parsed_pfns(m.ram, size_bytes, chain.readable, chain.writable) {
        None => w2 == refused && m2 == m,
        Some(pfns) => if inflate {
            exists|ok: bool|
                #[trigger] pages::inflates(discard, pfns, m.ram, m2.ram, ok) && w2 == (if ok {
                    BalloonCounts {
                        inflate_pages: wrapped(w.inflate_pages, pfns.to_set().len() as int) as u64,
                        ..w
                    }
                } else {
                    refused
                })
        } else {
            m2 == m && w2 == BalloonCounts {
                deflate_pages: wrapped(w.deflate_pages, pfns.len() as int) as u64,
                ..w
            }
        },
    }
}

/// A chain of a balloon queue is one request.
pub proof fn law_balloon_request_is_done<
    D: Fn(GuestMemoryMmap, u64, u64) -> (GuestMemoryMmap, bool),
>(
    discard: D,
    size_bytes: u64,
    queue: int,
    w: BalloonCounts,
    m: MemState,
    chain: ChainView,
    w2: BalloonCounts,
    m2: MemState,
    answer: Option<u32>,
)
    requires
        buffers::all_mapped(m.ram, chain.readable),
        balloon::balloon_step(discard, size_bytes, queue)(w, m, chain, w2, m2, answer),
    ensures
        does(discard, size_bytes, queue == 0, w, m, chain, w2, m2, answer),
{
    law_request_names_its_pages(m.ram, size_bytes, chain.readable, chain.writable);
    if let Some(pfns) = pages::parsed_pfns(m.ram, size_bytes, chain.readable, chain.writable) {
        pfns.lemma_cardinality_of_set();
        if pages::inflates(discard, pfns, m.ram, m2.ram, true) && w2 == w.inflated(
            pfns.to_set().len() as u64,
        ) {
            assert(pages::inflates(discard, pfns, m.ram, m2.ram, true));
        }
    }
}

/// The turn of a chain is as [`does`] says.
pub open spec fn is_done<D: Fn(GuestMemoryMmap, u64, u64) -> (GuestMemoryMmap, bool)>(
    discard: D,
    size_bytes: u64,
    inflate: bool,
    turn: Turn<BalloonCounts>,
) -> bool {
    does(
        discard,
        size_bytes,
        inflate,
        turn.at.work,
        turn.at.pass.mem,
        turn.chain,
        turn.work,
        turn.mem,
        turn.answer,
    )
}

proof fn lemma_is_done<D: Fn(GuestMemoryMmap, u64, u64) -> (GuestMemoryMmap, bool)>(
    discard: D,
    size_bytes: u64,
    queue: int,
    config: vqueue::QueueConfig,
    target: u16,
    from: Pass<BalloonCounts>,
    turn: Turn<BalloonCounts>,
)
    requires
        trace_laws::reaches(config, target, from, turn),
        balloon::balloon_step(discard, size_bytes, queue)(
            turn.at.work,
            turn.at.pass.mem,
            turn.chain,
            turn.work,
            turn.mem,
            turn.answer,
        ),
    ensures
        is_done(discard, size_bytes, queue == 0, turn),
{
    vqueue::lemma_chain_buffers(turn.at.pass.mem.ram, config, turn.head);
    law_balloon_request_is_done(
        discard,
        size_bytes,
        queue,
        turn.at.work,
        turn.at.pass.mem,
        turn.chain,
        turn.work,
        turn.mem,
        turn.answer,
    );
}

/// A kick of a queue works through it request by request, from where the device stood to the index
/// that the guest has set. Each is done as [`does`] says. The guest is interrupted where a chain
/// went back. Nothing else of the device changes.
#[verifier::spinoff_prover]
#[verifier::rlimit(60)]
pub proof fn law_balloon_kick_does_every_request<
    D: Fn(GuestMemoryMmap, u64, u64) -> (GuestMemoryMmap, bool),
>(discard: D, s: BalloonView, i: int, t: BalloonView, done: nat) -> (r: (
    Seq<Pass<BalloonCounts>>,
    Seq<Turn<BalloonCounts>>,
    Pass<BalloonCounts>,
))
    requires
        balloon::balloon_kicked(discard, s, i, t, done),
        0 <= i < s.processors.len(),
        s.can_process(i),
        vqueue::queue_usable(s.ram->0, s.queues[i].config()),
    ensures
        ({
            let config = s.queues[i].config();
            let target = trace_laws::word16(s.ram->0, config.avail_ring_addr + 2) as u16;
            let (states, turns, end) = r;
            &&& trace_laws::starts_at(s.processors[i], s.ram->0, Some(s.dirty), states[0].pass)
            &&& states[0].work == s.counts
            &&& trace_laws::in_turn(
                balloon::balloon_step(discard, s.size_bytes, i),
                config,
                target,
                states,
                turns,
            )
            &&& forall|k: int|
                0 <= k < turns.len() ==> is_done(discard, s.size_bytes, i == 0, #[trigger] turns[k])
            &&& trace_laws::ends(config, target, states, turns, end)
            &&& trace_laws::is_over(config, end.pass, t.processors[i], t.ram->0, Some(t.dirty))
            &&& t.counts == end.work
            &&& done == end.pass.done
            &&& if done > 0 {
                &&& t.regs == TransportRegs {
                    interrupt_status: s.regs.interrupt_status | 1,
                    ..s.regs
                }
                &&& t.pending_irqs == wrapped(s.pending_irqs, 1)
            } else {
                t.regs == s.regs && t.pending_irqs == s.pending_irqs
            }
            &&& t == BalloonView {
                processors: s.processors.update(i, t.processors[i]),
                counts: t.counts,
                ram: t.ram,
                dirty: t.dirty,
                regs: t.regs,
                pending_irqs: t.pending_irqs,
                ..s
            }
            &&& t.ram is Some
        }),
{
    let config = s.queues[i].config();
    trace_laws::law_rings_stand_in_memory(s.ram->0, config, 0);
    let target = vqueue::avail_ring_idx(s.ram->0, config);
    let w = lemma_kick_pass(discard, s, i, t, done);
    let (states, turns) = lemma_kick_trace(
        discard,
        s.size_bytes,
        i,
        config,
        target,
        s.pass_start(i),
        w,
    );
    lemma_kick_over(s, i, t, w);
    (states, turns, w)
}

proof fn lemma_kick_pass<D: Fn(GuestMemoryMmap, u64, u64) -> (GuestMemoryMmap, bool)>(
    discard: D,
    s: BalloonView,
    i: int,
    t: BalloonView,
    done: nat,
) -> (w: Pass<BalloonCounts>)
    requires
        balloon::balloon_kicked(discard, s, i, t, done),
        s.can_process(i),
        vqueue::queue_usable(s.ram->0, s.queues[i].config()),
    ensures
        vqueue::device_pass(
            balloon::balloon_step(discard, s.size_bytes, i),
            s.queues[i].config(),
            vqueue::avail_ring_idx(s.ram->0, s.queues[i].config()),
            s.pass_start(i),
            w,
        ),
        t == s.pass_finished(i, w),
        done == w.pass.done,
{
    choose|w: Pass<BalloonCounts>|
        #[trigger] vqueue::device_pass(
            balloon::balloon_step(discard, s.size_bytes, i),
            s.queues[i].config(),
            vqueue::avail_ring_idx(s.ram->0, s.queues[i].config()),
            s.pass_start(i),
            w,
        ) && t == s.pass_finished(i, w) && done == w.pass.done
}

proof fn lemma_kick_trace<D: Fn(GuestMemoryMmap, u64, u64) -> (GuestMemoryMmap, bool)>(
    discard: D,
    size_bytes: u64,
    i: int,
    config: vqueue::QueueConfig,
    target: u16,
    s: Pass<BalloonCounts>,
    w: Pass<BalloonCounts>,
) -> (r: (Seq<Pass<BalloonCounts>>, Seq<Turn<BalloonCounts>>))
    requires
        config.size > 0,
        vqueue::device_pass(balloon::balloon_step(discard, size_bytes, i), config, target, s, w),
    ensures
        r.0.len() > 0 && r.0[0] == s,
        trace_laws::in_turn(
            balloon::balloon_step(discard, size_bytes, i),
            config,
            target,
            r.0,
            r.1,
        ),
        trace_laws::ends(config, target, r.0, r.1, w),
        forall|k: int|
            0 <= k < r.1.len() ==> is_done(discard, size_bytes, i == 0, #[trigger] r.1[k]),
{
    let (states, turns) = trace_laws::law_pass_goes_in_turn(
        balloon::balloon_step(discard, size_bytes, i),
        config,
        target,
        s,
        w,
    );
    assert forall|k: int| 0 <= k < turns.len() implies is_done(
        discard,
        size_bytes,
        i == 0,
        #[trigger] turns[k],
    ) by {
        lemma_is_done(discard, size_bytes, i, config, target, states[k], turns[k]);
    }
    (states, turns)
}

proof fn lemma_kick_over(s: BalloonView, i: int, t: BalloonView, w: Pass<BalloonCounts>)
    requires
        0 <= i < s.processors.len(),
        t == s.pass_finished(i, w),
    ensures
        trace_laws::is_over(
            s.queues[i].config(),
            w.pass,
            t.processors[i],
            t.ram->0,
            Some(t.dirty),
        ),
        t.counts == w.work,
        w.pass.done > 0 ==> t.regs == (TransportRegs {
            interrupt_status: s.regs.interrupt_status | 1,
            ..s.regs
        }) && t.pending_irqs == wrapped(s.pending_irqs, 1),
        w.pass.done == 0 ==> t.regs == s.regs && t.pending_irqs == s.pending_irqs,
        t == (BalloonView {
            processors: s.processors.update(i, t.processors[i]),
            counts: t.counts,
            ram: t.ram,
            dirty: t.dirty,
            regs: t.regs,
            pending_irqs: t.pending_irqs,
            ..s
        }),
        t.ram is Some,
{
    trace_laws::lemma_is_over(
        s.queues[i].config(),
        w.pass,
        vqueue::used_idx_stored(w.pass.mem, s.queues[i].config(), w.pass.used),
    );
    assert(t.processors =~= s.processors.update(i, t.processors[i]));
}

/// The guest reads the target at the start of the configuration space and behind it the number of
/// pages that it has reported itself; that number changes exactly where guest memory has as many
/// pages, and a refused report is counted. No other register write changes either.
pub proof fn law_balloon_config_is_kept(d: BalloonView, off: u64, val: u32)
    ensures
        d.register(0x100) == d.target_pages,
        d.register(0x104) == d.actual_pages,
        d.written(off, val).target_pages == d.target_pages,
        d.written(off, val).actual_pages == (if off == 0x104 && val <= d.size_bytes / 4096 {
            val
        } else {
            d.actual_pages
        }),
        d.written(0x104, val).counts.rejected_pfns == (if val <= d.size_bytes / 4096 {
            d.counts.rejected_pfns as int
        } else {
            wrapped(d.counts.rejected_pfns, 1)
        }),
{
}

/// A new target is what the guest reads. It is told so: the generation of the configuration goes
/// on by one, and the interrupt for changes of it is raised.
pub proof fn law_new_target_is_announced(d: BalloonView, n: u32)
    ensures
        d.retargeted(n).target_pages == n,
        d.retargeted(n).register(0x100) == n,
        d.retargeted(n).config_generation == (d.config_generation + 1) % 0x1_0000_0000,
        d.retargeted(n).register(0xfc) == (d.config_generation + 1) % 0x1_0000_0000,
        d.retargeted(n).regs.interrupt_status == d.regs.interrupt_status | 2,
        d.retargeted(n).pending_irqs == wrapped(d.pending_irqs, 1),
        d.retargeted(n).actual_pages == d.actual_pages,
        d.retargeted(n).queues == d.queues,
        d.retargeted(n).ram == d.ram,
        d.retargeted(n).counts == d.counts,
{
}

/// A new target is taken exactly where guest memory has that many pages of 4096 bytes, and the
/// guest is then told of it. Otherwise nothing changes.
pub proof fn law_target_is_set_or_refused<DISCARD: Fn(u64, u64) -> bool>(
    n: u32,
    r: Result<(), String>,
)
    ensures
        forall|d: &mut VirtioBalloonMmio<DISCARD>| #[trigger]
            call_ensures(VirtioBalloonMmio::<DISCARD>::set_target_pages, (d, n), r) ==> {
                let (s, t) = ((*d)@, (*final(d))@);
                &&& r is Ok <==> n * 4096 <= s.size_bytes
                &&& if r is Ok {
                    &&& t.target_pages == n
                    &&& t.config_generation == (s.config_generation + 1) % 0x1_0000_0000
                    &&& t.regs.interrupt_status == s.regs.interrupt_status | 2
                    &&& t.pending_irqs == wrapped(s.pending_irqs, 1)
                    &&& t.actual_pages == s.actual_pages && t.queues == s.queues && t.ram == s.ram
                } else {
                    t == s
                }
            },
{
    assert forall|d: &mut VirtioBalloonMmio<DISCARD>| #[trigger]
        call_ensures(VirtioBalloonMmio::<DISCARD>::set_target_pages, (d, n), r) implies {
        let (s, t) = ((*d)@, (*final(d))@);
        &&& r is Ok <==> n * 4096 <= s.size_bytes
        &&& if r is Ok {
            &&& t.target_pages == n
            &&& t.config_generation == (s.config_generation + 1) % 0x1_0000_0000
            &&& t.regs.interrupt_status == s.regs.interrupt_status | 2
            &&& t.pending_irqs == wrapped(s.pending_irqs, 1)
            &&& t.actual_pages == s.actual_pages && t.queues == s.queues && t.ram == s.ram
        } else {
            t == s
        }
    } by {
        law_new_target_is_announced((*d)@, n);
    }
}

} // verus!
