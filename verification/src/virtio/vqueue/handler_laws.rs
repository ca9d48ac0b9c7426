//! What a handler is given of each chain, and what becomes of its answer.
use crate::dirty::SoftwareDirtyBitmap;
use crate::guest_memory;
use crate::virtio::buffers::laws as places;
use crate::virtio::buffers::{self, MemState};
use crate::virtio::vqueue::trace_laws::{self, Turn};
use crate::virtio::vqueue::{
    self, ChainStep, ChainView, Pass, PassState, QueueConfig, VirtQueueProcessor,
};
use vm_memory::GuestMemoryMmap;
use vstd::prelude::*;

verus! {

/// `b` is every byte of the buffers, in the order of the list, and nothing else.
pub open spec fn reads_all(ram: Map<int, u8>, bufs: Seq<(u64, u32)>, b: Seq<u8>) -> bool {
    &&& b.len() == places::start_of(bufs, bufs.len() as int)
    &&& forall|k: int, j: int| #[trigger]
        places::is_place(bufs, k, j) ==> b[places::start_of(bufs, k) + j] == ram[bufs[k].0 + j]
}

/// The writable buffers of a request are those for data and, at the end, one for the status.
pub open spec fn for_data(writable: Seq<(u64, u32)>) -> Seq<(u64, u32)> {
    writable.take(if writable.len() > 0 {
        writable.len() - 1
    } else {
        0
    })
}

/// Address `a` is where the status goes.
pub open spec fn is_status(ram: Map<int, u8>, writable: Seq<(u64, u32)>, a: int) -> bool {
    writable.len() > 0 && a == writable[writable.len() - 1].0 && a != 0 && ram.dom().contains(a)
}

/// From `m` to `n` the reply was stored, and nothing else: the data fills the buffers for it in
/// turn, as far as it reaches, and the status stands where it goes. What changed is on the record.
pub open spec fn holds_reply(
    m: MemState,
    writable: Seq<(u64, u32)>,
    data: Seq<u8>,
    status: u8,
    n: MemState,
) -> bool {
    let bufs = for_data(writable);
    &&& places::recorded(m, n)
    &&& forall|a: int| #[trigger] is_status(m.ram, writable, a) ==> n.ram[a] == status
    &&& places::apart(bufs) ==> forall|k: int, j: int| #[trigger]
        places::is_place(bufs, k, j) && !is_status(m.ram, writable, bufs[k].0 + j)
            ==> n.ram[bufs[k].0 + j] == (if places::start_of(bufs, k) + j < data.len() {
            data[places::start_of(bufs, k) + j]
        } else {
            m.ram[bufs[k].0 + j]
        })
    &&& places::apart(bufs) ==> forall|a: int|
        m.ram.dom().contains(a) && !places::in_any(bufs, a) && !is_status(m.ram, writable, a)
            ==> #[trigger] n.ram[a] == m.ram[a]
}

/// A request was answered: the handler was given all bytes that the guest wrote for it and all
/// bytes of the buffers for data, its reply was stored, and the chain is completed with the number
/// of its descriptors.
pub open spec fn is_answered<F: FnMut(&[u8], Vec<u8>) -> (Vec<u8>, u8)>(
    handler: F,
    m: MemState,
    chain: ChainView,
    n: MemState,
    answer: Option<u32>,
) -> bool {
    &&& answer == Some(chain.len as u32)
    &&& exists|rd: &[u8], wr: Vec<u8>, left: Vec<u8>, status: u8|
        {
            &&& #[trigger] call_ensures(handler, (rd, wr), (left, status))
            &&& reads_all(m.ram, chain.readable, rd@)
            &&& reads_all(m.ram, for_data(chain.writable), wr@)
            &&& holds_reply(m, chain.writable, left@, status, n)
        }
}

/// How a handler of requests takes up a chain.
pub open spec fn request_step<F: FnMut(&[u8], Vec<u8>) -> (Vec<u8>, u8)>(handler: F) -> ChainStep<
    (),
> {
    |w: (), m: MemState, chain: ChainView, v: (), n: MemState, answer: Option<u32>|
        is_answered(handler, m, chain, n, answer)
}

/// How a handler of descriptors takes up a chain: it is given all buffers of the chain, and memory
/// is left to it.
pub open spec fn descriptors_step<F: FnMut(&[(u64, u32)], &[(u64, u32)]) -> Option<u32>>(
    handler: F,
) -> ChainStep<()> {
    |w: (), m: MemState, chain: ChainView, v: (), n: MemState, answer: Option<u32>|
        n == m && exists|rd: &[(u64, u32)], wr: &[(u64, u32)]|
            {
                &&& #[trigger] call_ensures(handler, (rd, wr), answer)
                &&& rd@ == chain.readable
                &&& wr@ == chain.writable
            }
}

proof fn lemma_reads_all(ram: Map<int, u8>, bufs: Seq<(u64, u32)>)
    ensures
        reads_all(ram, bufs, buffers::gather(ram, bufs)),
{
    places::law_gather_reads_every_byte(ram, bufs);
}

#[verifier::spinoff_prover]
proof fn lemma_holds_reply(
    m: MemState,
    writable: Seq<(u64, u32)>,
    data: Seq<u8>,
    status: u8,
)
    requires
        buffers::all_mapped(m.ram, writable),
    ensures
        holds_reply(
            m,
            writable,
            data,
            status,
            vqueue::reply_stored(m, writable, data, status),
        ),
{
    let bufs = for_data(writable);
    let n = vqueue::reply_stored(m, writable, data, status);
    assert(bufs =~= vqueue::data_buffers(writable));
    let laid = buffers::scatter(m, bufs, data);
    assert(buffers::all_mapped(m.ram, bufs)) by {
        assert forall|i: int| 0 <= i < bufs.len() implies (#[trigger] bufs[i]).1 == 0
            || guest_memory::is_mapped(m.ram, bufs[i].0 as int, bufs[i].1 as int) by {
            assert(bufs[i] == writable[i]);
        }
    }
    places::law_scatter_is_recorded(m, bufs, data);
    if places::apart(bufs) {
        places::law_scatter_fills_every_buffer(m, bufs, data);
    }
    if writable.len() > 0 && writable.last().0 != 0 && guest_memory::is_mapped(
        m.ram,
        writable.last().0 as int,
        1,
    ) {
        let at = writable.last().0 as int;
        assert(guest_memory::is_mapped(laid.ram, at, 1));
        places::lemma_store_recorded(laid, at, seq![status]);
        places::lemma_recorded_on(m, laid, n);
        guest_memory::lemma_ram_write_dom(laid.ram, at, seq![status]);
    }
}

/// A pass over requests is one pass in which each chain is answered as [`is_answered`] says.
#[verifier::spinoff_prover]
pub proof fn lemma_requests_pass<F: FnMut(&[u8], Vec<u8>) -> (Vec<u8>, u8)>(
    handler: F,
    config: QueueConfig,
    target: u16,
    s: PassState,
    t: PassState,
)
    requires
        vqueue::requests_pass(handler, config, target, s, t),
    ensures
        vqueue::device_pass(
            request_step(handler),
            config,
            target,
            Pass { pass: s, work: () },
            Pass { pass: t, work: () },
        ),
    decreases vqueue::idx_distance(s.avail, target),
{
    let k = s.skipped(config, target);
    let p = Pass { pass: s, work: () };
    let step = request_step(handler);
    vqueue::lemma_skip_rejected(s.mem.ram, config, s.avail, target);
    if k.avail != target {
        let head = vqueue::avail_head(k.mem.ram, config, k.avail);
        let chain = vqueue::chain_from(k.mem.ram, config, head)->0;
        let (after, status) = choose|after: Seq<u8>, status: u8|
            #![trigger vqueue::reply_stored(k.mem, chain.writable, after, status)]
            {
                &&& vqueue::request_answer(
                    handler,
                    buffers::gather(k.mem.ram, chain.readable),
                    buffers::gather(k.mem.ram, vqueue::data_buffers(chain.writable)),
                    after,
                    status,
                )
                &&& vqueue::requests_pass(
                    handler,
                    config,
                    target,
                    PassState {
                        mem: vqueue::reply_stored(k.mem, chain.writable, after, status),
                        ..k
                    }.completed(config, head, chain.len as u32),
                    t,
                )
            };
        let m = vqueue::reply_stored(k.mem, chain.writable, after, status);
        let next = PassState { mem: m, ..k }.completed(config, head, chain.len as u32);
        vqueue::lemma_chain_buffers(k.mem.ram, config, head);
        lemma_holds_reply(k.mem, chain.writable, after, status);
        lemma_reads_all(k.mem.ram, chain.readable);
        lemma_reads_all(k.mem.ram, for_data(chain.writable));
        assert(for_data(chain.writable) =~= vqueue::data_buffers(chain.writable));
        assert(is_answered(handler, k.mem, chain, m, Some(chain.len as u32)));
        lemma_requests_pass(handler, config, target, next, t);
        let q = p.skipped(config, target);
        let len = chain.len as u32;
        assert(q.pass == k);
        assert(step(q.work, q.pass.mem, chain, (), m, Some(len)));
        assert(q.worked((), m).completed(config, head, len) == Pass { pass: next, work: () });
        assert(vqueue::device_pass(
            step,
            config,
            target,
            q.worked((), m).completed(config, head, len),
            Pass { pass: t, work: () },
        ));
    }
}

/// A pass over descriptors is one pass in which each chain is taken up as [`descriptors_step`] says.
#[verifier::spinoff_prover]
pub proof fn lemma_descriptors_pass<F: FnMut(&[(u64, u32)], &[(u64, u32)]) -> Option<u32>>(
    handler: F,
    config: QueueConfig,
    target: u16,
    s: PassState,
    t: PassState,
)
    requires
        vqueue::descriptors_pass(handler, config, target, s, t),
    ensures
        vqueue::device_pass(
            descriptors_step(handler),
            config,
            target,
            Pass { pass: s, work: () },
            Pass { pass: t, work: () },
        ),
    decreases vqueue::idx_distance(s.avail, target),
{
    let k = s.skipped(config, target);
    let p = Pass { pass: s, work: () };
    let step = descriptors_step(handler);
    vqueue::lemma_skip_rejected(s.mem.ram, config, s.avail, target);
    if k.avail != target {
        let head = vqueue::avail_head(k.mem.ram, config, k.avail);
        let chain = vqueue::chain_from(k.mem.ram, config, head)->0;
        let q = p.skipped(config, target);
        assert(q.pass == k);
        if t == k && vqueue::descriptors_answer(handler, chain.readable, chain.writable, None) {
            assert(step(q.work, q.pass.mem, chain, (), k.mem, None::<u32>));
            assert(q.worked((), k.mem) == Pass { pass: t, work: () });
        } else {
            let len = choose|len: u32|
                #![trigger k.completed(config, head, len)]
                vqueue::descriptors_answer(handler, chain.readable, chain.writable, Some(len))
                    && vqueue::descriptors_pass(
                    handler,
                    config,
                    target,
                    k.completed(config, head, len),
                    t,
                );
            lemma_descriptors_pass(handler, config, target, k.completed(config, head, len), t);
            let next = Pass { pass: k.completed(config, head, len), work: () };
            assert(step(q.work, q.pass.mem, chain, (), k.mem, Some(len)));
            assert(q.worked((), k.mem).completed(config, head, len) == next);
            assert(vqueue::device_pass(
                step,
                config,
                target,
                q.worked((), k.mem).completed(config, head, len),
                Pass { pass: t, work: () },
            ));
        }
    }
}

/// The queue was worked through: the chains that the guest had made available were taken up in
/// turn, from where the processor stood, until none was left or one was not answered; the processor
/// stands behind them, and the guest sees those that were completed.
pub open spec fn worked_through(
    step: ChainStep<()>,
    before: VirtQueueProcessor,
    m: MemState,
    after: VirtQueueProcessor,
    ram: Map<int, u8>,
    marks: Option<Seq<(u64, u64)>>,
    processed: int,
) -> bool {
    let config = before.config;
    let target = trace_laws::word16(m.ram, config.avail_ring_addr + 2) as u16;
    exists|states: Seq<Pass<()>>, turns: Seq<Turn<()>>, e: Pass<()>|
        {
            &&& #[trigger] trace_laws::in_turn(step, config, target, states, turns)
            &&& trace_laws::starts_at(Some(before), m.ram, Some(m.marks), states[0].pass)
            &&& #[trigger] trace_laws::ends(config, target, states, turns, e)
            &&& trace_laws::is_over(config, e.pass, Some(after), ram, marks)
            &&& processed == e.pass.done
        }
}

#[verifier::spinoff_prover]
proof fn lemma_worked_through(
    step: ChainStep<()>,
    before: VirtQueueProcessor,
    m: MemState,
    t: PassState,
    n: MemState,
    marks: Option<Seq<(u64, u64)>>,
)
    requires
        vqueue::queue_usable(m.ram, before.config),
        vqueue::device_pass(
            step,
            before.config,
            vqueue::avail_ring_idx(m.ram, before.config),
            Pass { pass: PassState::start(before, m), work: () },
            Pass { pass: t, work: () },
        ),
        n == vqueue::used_idx_stored(t.mem, before.config, t.used),
        marks matches Some(d) ==> d == n.marks,
    ensures
        worked_through(
            step,
            before,
            m,
            VirtQueueProcessor { last_avail_idx: t.avail, last_used_idx: t.used, ..before },
            n.ram,
            marks,
            t.done as int,
        ),
{
    let config = before.config;
    let target = vqueue::avail_ring_idx(m.ram, config);
    let e = Pass { pass: t, work: () };
    trace_laws::law_rings_stand_in_memory(m.ram, config, 0);
    let (states, turns) = trace_laws::law_pass_goes_in_turn(
        step,
        config,
        target,
        Pass { pass: PassState::start(before, m), work: () },
        e,
    );
    trace_laws::lemma_is_over(config, t, n);
    assert(trace_laws::in_turn(step, config, target, states, turns));
    assert(trace_laws::ends(config, target, states, turns, e));
}

/// Calls that work through a queue of requests answer every chain in turn, as [`is_answered`] says
/// of each.
pub proof fn law_requests_are_answered_in_turn<F: FnMut(&[u8], Vec<u8>) -> (Vec<u8>, u8)>(
    handler: F,
    processed: usize,
)
    ensures
        forall|p: &mut VirtQueueProcessor, mem: &mut GuestMemoryMmap| #[trigger]
            call_ensures(VirtQueueProcessor::process_queue::<F>, (p, mem, handler), processed)
                && vqueue::queue_usable(guest_memory::guest_bytes(*mem), (*p).config)
                ==> worked_through(
                request_step(handler),
                *p,
                (MemState { ram: guest_memory::guest_bytes(*mem), marks: Seq::empty() }),
                *final(p),
                guest_memory::guest_bytes(*final(mem)),
                None,
                processed as int,
            ),
        forall|
            p: &mut VirtQueueProcessor,
            mem: &mut GuestMemoryMmap,
            d: &mut SoftwareDirtyBitmap,
        | #[trigger]
            call_ensures(
                VirtQueueProcessor::process_queue_dirty::<F>,
                (p, mem, Some(d), handler),
                processed,
            ) && vqueue::queue_usable(guest_memory::guest_bytes(*mem), (*p).config)
                ==> worked_through(
                request_step(handler),
                *p,
                (MemState { ram: guest_memory::guest_bytes(*mem), marks: (*d)@ }),
                *final(p),
                guest_memory::guest_bytes(*final(mem)),
                Some((*final(d))@),
                processed as int,
            ),
{
    assert forall|p: &mut VirtQueueProcessor, mem: &mut GuestMemoryMmap| #[trigger]
        call_ensures(VirtQueueProcessor::process_queue::<F>, (p, mem, handler), processed)
            && vqueue::queue_usable(
            guest_memory::guest_bytes(*mem),
            (*p).config,
        ) implies worked_through(
        request_step(handler),
        *p,
        (MemState { ram: guest_memory::guest_bytes(*mem), marks: Seq::empty() }),
        *final(p),
        guest_memory::guest_bytes(*final(mem)),
        None,
        processed as int,
    ) by {
        let m = MemState { ram: guest_memory::guest_bytes(*mem), marks: Seq::empty() };
        let config = (*p).config;
        let target = vqueue::avail_ring_idx(m.ram, config);
        let t = choose|t: PassState|
            {
                &&& #[trigger] vqueue::requests_pass(
                    handler,
                    config,
                    target,
                    PassState::start(*p, m),
                    t,
                )
                &&& (*final(p)).last_avail_idx == t.avail
                &&& (*final(p)).last_used_idx == t.used
                &&& processed == t.done
                &&& guest_memory::guest_bytes(*final(mem)) == vqueue::used_idx_stored(
                    t.mem,
                    config,
                    t.used,
                ).ram
            };
        lemma_requests_pass(handler, config, target, PassState::start(*p, m), t);
        lemma_worked_through(
            request_step(handler),
            *p,
            m,
            t,
            vqueue::used_idx_stored(t.mem, config, t.used),
            None,
        );
    }
    assert forall|
        p: &mut VirtQueueProcessor,
        mem: &mut GuestMemoryMmap,
        d: &mut SoftwareDirtyBitmap,
    | #[trigger]
        call_ensures(
            VirtQueueProcessor::process_queue_dirty::<F>,
            (p, mem, Some(d), handler),
            processed,
        ) && vqueue::queue_usable(
            guest_memory::guest_bytes(*mem),
            (*p).config,
        ) implies worked_through(
        request_step(handler),
        *p,
        (MemState { ram: guest_memory::guest_bytes(*mem), marks: (*d)@ }),
        *final(p),
        guest_memory::guest_bytes(*final(mem)),
        Some((*final(d))@),
        processed as int,
    ) by {
        let m = MemState { ram: guest_memory::guest_bytes(*mem), marks: (*d)@ };
        let config = (*p).config;
        let target = vqueue::avail_ring_idx(m.ram, config);
        let t = choose|t: PassState|
            {
                &&& #[trigger] vqueue::requests_pass(
                    handler,
                    config,
                    target,
                    PassState::start(*p, m),
                    t,
                )
                &&& (*final(p)).last_avail_idx == t.avail
                &&& (*final(p)).last_used_idx == t.used
                &&& processed == t.done
                &&& guest_memory::guest_bytes(*final(mem)) == vqueue::used_idx_stored(
                    t.mem,
                    config,
                    t.used,
                ).ram
                &&& (*final(d))@ == vqueue::used_idx_stored(t.mem, config, t.used).marks
            };
        lemma_requests_pass(handler, config, target, PassState::start(*p, m), t);
        lemma_worked_through(
            request_step(handler),
            *p,
            m,
            t,
            vqueue::used_idx_stored(t.mem, config, t.used),
            Some((*final(d))@),
        );
    }
}

/// Calls that work through a queue of descriptors hand every chain over in turn, as
/// [`descriptors_step`] says of each.
pub proof fn law_descriptors_are_handed_over_in_turn<
    F: FnMut(&[(u64, u32)], &[(u64, u32)]) -> Option<u32>,
>(handler: F, processed: usize)
    ensures
        forall|p: &mut VirtQueueProcessor, mem: &mut GuestMemoryMmap| #[trigger]
            call_ensures(
                VirtQueueProcessor::process_queue_descriptors::<F>,
                (p, mem, handler),
                processed,
            ) && vqueue::queue_usable(guest_memory::guest_bytes(*mem), (*p).config)
                ==> worked_through(
                descriptors_step(handler),
                *p,
                (MemState { ram: guest_memory::guest_bytes(*mem), marks: Seq::empty() }),
                *final(p),
                guest_memory::guest_bytes(*final(mem)),
                None,
                processed as int,
            ),
        forall|
            p: &mut VirtQueueProcessor,
            mem: &mut GuestMemoryMmap,
            d: &mut SoftwareDirtyBitmap,
        | #[trigger]
            call_ensures(
                VirtQueueProcessor::process_queue_descriptors_dirty::<F>,
                (p, mem, Some(d), handler),
                processed,
            ) && vqueue::queue_usable(guest_memory::guest_bytes(*mem), (*p).config)
                ==> worked_through(
                descriptors_step(handler),
                *p,
                (MemState { ram: guest_memory::guest_bytes(*mem), marks: (*d)@ }),
                *final(p),
                guest_memory::guest_bytes(*final(mem)),
                Some((*final(d))@),
                processed as int,
            ),
{
    assert forall|p: &mut VirtQueueProcessor, mem: &mut GuestMemoryMmap| #[trigger]
        call_ensures(
            VirtQueueProcessor::process_queue_descriptors::<F>,
            (p, mem, handler),
            processed,
        ) && vqueue::queue_usable(
            guest_memory::guest_bytes(*mem),
            (*p).config,
        ) implies worked_through(
        descriptors_step(handler),
        *p,
        (MemState { ram: guest_memory::guest_bytes(*mem), marks: Seq::empty() }),
        *final(p),
        guest_memory::guest_bytes(*final(mem)),
        None,
        processed as int,
    ) by {
        let m = MemState { ram: guest_memory::guest_bytes(*mem), marks: Seq::empty() };
        let config = (*p).config;
        let target = vqueue::avail_ring_idx(m.ram, config);
        let t = choose|t: PassState|
            {
                &&& #[trigger] vqueue::descriptors_pass(
                    handler,
                    config,
                    target,
                    PassState::start(*p, m),
                    t,
                )
                &&& (*final(p)).last_avail_idx == t.avail
                &&& (*final(p)).last_used_idx == t.used
                &&& processed == t.done
                &&& guest_memory::guest_bytes(*final(mem)) == vqueue::used_idx_stored(
                    t.mem,
                    config,
                    t.used,
                ).ram
            };
        lemma_descriptors_pass(handler, config, target, PassState::start(*p, m), t);
        lemma_worked_through(
            descriptors_step(handler),
            *p,
            m,
            t,
            vqueue::used_idx_stored(t.mem, config, t.used),
            None,
        );
    }
    assert forall|
        p: &mut VirtQueueProcessor,
        mem: &mut GuestMemoryMmap,
        d: &mut SoftwareDirtyBitmap,
    | #[trigger]
        call_ensures(
            VirtQueueProcessor::process_queue_descriptors_dirty::<F>,
            (p, mem, Some(d), handler),
            processed,
        ) && vqueue::queue_usable(
            guest_memory::guest_bytes(*mem),
            (*p).config,
        ) implies worked_through(
        descriptors_step(handler),
        *p,
        (MemState { ram: guest_memory::guest_bytes(*mem), marks: (*d)@ }),
        *final(p),
        guest_memory::guest_bytes(*final(mem)),
        Some((*final(d))@),
        processed as int,
    ) by {
        let m = MemState { ram: guest_memory::guest_bytes(*mem), marks: (*d)@ };
        let config = (*p).config;
        let target = vqueue::avail_ring_idx(m.ram, config);
        let t = choose|t: PassState|
            {
                &&& #[trigger] vqueue::descriptors_pass(
                    handler,
                    config,
                    target,
                    PassState::start(*p, m),
                    t,
                )
                &&& (*final(p)).last_avail_idx == t.avail
                &&& (*final(p)).last_used_idx == t.used
                &&& processed == t.done
                &&& guest_memory::guest_bytes(*final(mem)) == vqueue::used_idx_stored(
                    t.mem,
                    config,
                    t.used,
                ).ram
                &&& (*final(d))@ == vqueue::used_idx_stored(t.mem, config, t.used).marks
            };
        lemma_descriptors_pass(handler, config, target, PassState::start(*p, m), t);
        lemma_worked_through(
            descriptors_step(handler),
            *p,
            m,
            t,
            vqueue::used_idx_stored(t.mem, config, t.used),
            Some((*final(d))@),
        );
    }
}

} // verus!
