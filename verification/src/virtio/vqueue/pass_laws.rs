//! What holds of every pass over a queue.
use crate::guest_memory;
use crate::virtio::buffers;
use crate::virtio::vqueue::{self, ChainStep, Pass, PassState, QueueConfig};
use vstd::prelude::*;

verus! {

/// Ring index `i` after `n` more steps.
pub open spec fn idx_after(i: u16, n: int) -> u16 {
    ((i + n) % 0x1_0000) as u16
}

/// Between `s` and `t` each chain that was completed took one step in the used ring and at least
/// one in the avail ring, and the avail ring was never passed over.
pub open spec fn advanced(s: PassState, t: PassState, target: u16) -> bool {
    &&& s.done <= t.done
    &&& t.used == idx_after(s.used, t.done - s.done)
    &&& (t.done - s.done) + vqueue::idx_distance(t.avail, target) <= vqueue::idx_distance(
        s.avail,
        target,
    )
}

/// One chain more keeps the account.
pub proof fn lemma_one_more(
    s: PassState,
    k: PassState,
    next: PassState,
    t: PassState,
    target: u16,
)
    requires
        k.used == s.used,
        k.done == s.done,
        vqueue::idx_distance(k.avail, target) <= vqueue::idx_distance(s.avail, target),
        k.avail != target,
        next.avail == vqueue::next_idx(k.avail),
        next.used == vqueue::next_idx(k.used),
        next.done == k.done + 1,
        advanced(next, t, target),
    ensures
        advanced(s, t, target),
{
    let n = t.done - next.done;
    assert(idx_after(vqueue::next_idx(s.used), n) == idx_after(s.used, n + 1));
}

/// A device's pass completes no more chains than the guest made available, and the used ring
/// advances by one for each.
pub proof fn law_device_pass_advances<W>(
    step: ChainStep<W>,
    config: QueueConfig,
    target: u16,
    s: Pass<W>,
    t: Pass<W>,
)
    requires
        vqueue::device_pass(step, config, target, s, t),
    ensures
        advanced(s.pass, t.pass, target),
    decreases vqueue::idx_distance(s.pass.avail, target),
{
    let k = s.skipped(config, target);
    vqueue::lemma_skip_rejected(s.pass.mem.ram, config, s.pass.avail, target);
    if k.pass.avail != target {
        let head = vqueue::avail_head(k.pass.mem.ram, config, k.pass.avail);
        let chain = vqueue::chain_from(k.pass.mem.ram, config, head)->0;
        let (w, m, answer) = choose|w: W, m: buffers::MemState, answer: Option<u32>|
            #[trigger] step(k.work, k.pass.mem, chain, w, m, answer) && match answer {
                None => t == k.worked(w, m),
                Some(len) => vqueue::device_pass(
                    step,
                    config,
                    target,
                    k.worked(w, m).completed(config, head, len),
                    t,
                ),
            };
        match answer {
            None => {},
            Some(len) => {
                let next = k.worked(w, m).completed(config, head, len);
                law_device_pass_advances(step, config, target, next, t);
                lemma_one_more(s.pass, k.pass, next.pass, t.pass, target);
            },
        }
    }
}

/// A pass that exposes buffers to a handler completes no more chains than the guest made
/// available, the used ring advances by one for each, and no byte outside the used ring's entries
/// is written.
pub proof fn law_descriptors_pass_advances<
    F: FnMut(&[(u64, u32)], &[(u64, u32)]) -> Option<u32>,
>(handler: F, config: QueueConfig, target: u16, s: PassState, t: PassState)
    requires
        config.size > 0,
        vqueue::descriptors_pass(handler, config, target, s, t),
    ensures
        advanced(s, t, target),
        t.mem.ram.dom() == s.mem.ram.dom(),
        forall|a: int|
            #![trigger t.mem.ram[a]]
            s.mem.ram.dom().contains(a) && !(config.used_ring_addr + 4 <= a
                < config.used_ring_addr + 4 + 8 * config.size) ==> t.mem.ram[a] == s.mem.ram[a],
    decreases vqueue::idx_distance(s.avail, target),
{
    let k = s.skipped(config, target);
    vqueue::lemma_skip_rejected(s.mem.ram, config, s.avail, target);
    if k.avail != target {
        let head = vqueue::avail_head(k.mem.ram, config, k.avail);
        let chain = vqueue::chain_from(k.mem.ram, config, head)->0;
        if !(t == k && vqueue::descriptors_answer(handler, chain.readable, chain.writable, None)) {
            let len = choose|len: u32|
                #![trigger k.completed(config, head, len)]
                vqueue::descriptors_answer(handler, chain.readable, chain.writable, Some(len))
                    && vqueue::descriptors_pass(
                    handler,
                    config,
                    target,
                    k.completed(config, head, len),
                    t,
                );
            let next = k.completed(config, head, len);
            law_descriptors_pass_advances(handler, config, target, next, t);
            lemma_one_more(s, k, next, t, target);
            lemma_used_entry_confined(k.mem, config, k.used, head, len);
        }
    }
}

/// An entry of the used ring is stored inside it.
proof fn lemma_used_entry_confined(
    m: buffers::MemState,
    config: QueueConfig,
    used: u16,
    head: u16,
    len: u32,
)
    requires
        config.size > 0,
    ensures
        vqueue::used_entry_stored(m, config, used, head, len).ram.dom() == m.ram.dom(),
        forall|a: int|
            #![trigger vqueue::used_entry_stored(m, config, used, head, len).ram[a]]
            m.ram.dom().contains(a) && !(config.used_ring_addr + 4 <= a < config.used_ring_addr + 4
                + 8 * config.size) ==> vqueue::used_entry_stored(m, config, used, head, len).ram[a]
                == m.ram[a],
{
    let slot = used as int % config.size as int;
    assert(0 <= slot < config.size) by (nonlinear_arith)
        requires
            config.size > 0,
            slot == used as int % config.size as int,
    ;
    let after = vqueue::used_entry_stored(m, config, used, head, len);
    assert(after.ram.dom() =~= m.ram.dom());
}

/// A pass over requests completes no more chains than the guest made available, the used ring
/// advances by one for each, and every chain was taken up.
pub proof fn law_requests_pass_advances<F: FnMut(&[u8], Vec<u8>) -> (Vec<u8>, u8)>(
    handler: F,
    config: QueueConfig,
    target: u16,
    s: PassState,
    t: PassState,
)
    requires
        vqueue::requests_pass(handler, config, target, s, t),
    ensures
        advanced(s, t, target),
        t.avail == target,
        t.mem.ram.dom() == s.mem.ram.dom(),
    decreases vqueue::idx_distance(s.avail, target),
{
    let k = s.skipped(config, target);
    vqueue::lemma_skip_rejected(s.mem.ram, config, s.avail, target);
    if k.avail != target {
        let head = vqueue::avail_head(k.mem.ram, config, k.avail);
        let chain = vqueue::chain_from(k.mem.ram, config, head)->0;
        let (after, status) = choose|after: Seq<u8>, status: u8|
            #![trigger vqueue::reply_stored(k.mem, chain.writable, after, status)]
            {
                &&& vqueue::request_answer(
                    handler,
                    buffers::gather(k.mem.ram, chain.readable),
                    buffers::gather(k.mem.ram, vqueue::data_buffers(chain.writable)),
                    after,
                    status,
                )
                &&& vqueue::requests_pass(
                    handler,
                    config,
                    target,
                    PassState {
                        mem: vqueue::reply_stored(k.mem, chain.writable, after, status),
                        ..k
                    }.completed(config, head, chain.len as u32),
                    t,
                )
            };
        let worked = PassState {
            mem: vqueue::reply_stored(k.mem, chain.writable, after, status),
            ..k
        };
        let next = worked.completed(config, head, chain.len as u32);
        law_requests_pass_advances(handler, config, target, next, t);
        lemma_one_more(s, k, next, t, target);
        buffers::lemma_scatter_dom(k.mem, vqueue::data_buffers(chain.writable), after);
        assert(worked.mem.ram.dom() =~= k.mem.ram.dom());
        assert(next.mem.ram.dom() =~= worked.mem.ram.dom());
    }
}

} // verus!
