//! What a pass leaves of memory, and where it stops.
use crate::bytes;
use crate::guest_memory;
use crate::virtio::buffers;
use crate::virtio::vqueue::desc_flags;
use crate::virtio::vqueue::pass_laws;
use crate::virtio::vqueue::{self, ChainView, Descriptor, PassState, QueueConfig};
use vstd::prelude::*;

verus! {

/// Address `a` lies in the descriptor table.
pub open spec fn in_table(config: QueueConfig, a: int) -> bool {
    config.desc_table_addr <= a < config.desc_table_addr + 16 * config.size
}

/// Address `a` lies in the avail ring.
pub open spec fn in_avail(config: QueueConfig, a: int) -> bool {
    config.avail_ring_addr <= a < config.avail_ring_addr + 4 + 2 * config.size
}

/// Address `a` lies in the used ring.
pub open spec fn in_used(config: QueueConfig, a: int) -> bool {
    config.used_ring_addr <= a < config.used_ring_addr + 4 + 8 * config.size
}

/// Address `a` lies in the entries of the used ring.
pub open spec fn in_entries(config: QueueConfig, a: int) -> bool {
    config.used_ring_addr + 4 <= a < config.used_ring_addr + 4 + 8 * config.size
}

/// The used ring, which the device writes, lies apart from what it reads.
pub open spec fn used_apart(config: QueueConfig) -> bool {
    forall|a: int| #[trigger] in_used(config, a) ==> !in_table(config, a) && !in_avail(config, a)
}

/// What the guest has queued is the same in both memories.
pub open spec fn same_rings(a: Map<int, u8>, b: Map<int, u8>, config: QueueConfig) -> bool {
    &&& a.dom() == b.dom()
    &&& forall|x: int|
        in_table(config, x) || in_avail(config, x) ==> #[trigger] a[x] == #[trigger] b[x]
}

proof fn lemma_desc_same(a: Map<int, u8>, b: Map<int, u8>, config: QueueConfig, i: u16)
    requires
        same_rings(a, b, config),
        i < config.size,
    ensures
        vqueue::desc_at(a, config, i) == vqueue::desc_at(b, config, i),
{
    let at = config.desc_table_addr + 16 * i;
    let x = guest_memory::ram_bytes(a, at, 16);
    let y = guest_memory::ram_bytes(b, at, 16);
    assert forall|k: int| 0 <= k < 16 implies #[trigger] x[k] == y[k] by {
        assert(in_table(config, at + k));
        assert(a[at + k] == b[at + k]);
    }
    assert(x =~= y);
}

proof fn lemma_head_same(a: Map<int, u8>, b: Map<int, u8>, config: QueueConfig, avail: u16)
    requires
        same_rings(a, b, config),
        config.size > 0,
    ensures
        vqueue::avail_head(a, config, avail) == vqueue::avail_head(b, config, avail),
{
    let slot = avail as int % config.size as int;
    assert(0 <= slot < config.size) by (nonlinear_arith)
        requires
            config.size > 0,
            slot == avail as int % config.size as int,
    ;
    let at = config.avail_ring_addr + 4 + 2 * slot;
    let x = guest_memory::ram_bytes(a, at, 2);
    let y = guest_memory::ram_bytes(b, at, 2);
    assert forall|k: int| 0 <= k < 2 implies #[trigger] x[k] == y[k] by {
        assert(in_avail(config, at + k));
        assert(a[at + k] == b[at + k]);
    }
    assert(x =~= y);
}

proof fn lemma_path_sums_same(
    a: Map<int, u8>,
    b: Map<int, u8>,
    config: QueueConfig,
    path: Seq<u16>,
)
    requires
        same_rings(a, b, config),
        forall|i: int| 0 <= i < path.len() ==> #[trigger] path[i] < config.size,
    ensures
        vqueue::path_bytes(a, config, path) == vqueue::path_bytes(b, config, path),
        vqueue::path_buffers(a, config, path, true) == vqueue::path_buffers(b, config, path, true),
        vqueue::path_buffers(a, config, path, false) == vqueue::path_buffers(
            b,
            config,
            path,
            false,
        ),
    decreases path.len(),
{
    if path.len() > 0 {
        assert forall|i: int| 0 <= i < path.drop_last().len() implies #[trigger] path.drop_last()[i]
            < config.size by {
            assert(path.drop_last()[i] == path[i]);
        }
        assert(path[path.len() - 1] < config.size);
        lemma_path_sums_same(a, b, config, path.drop_last());
        lemma_desc_same(a, b, config, path.last());
    }
}

proof fn lemma_path_same(
    a: Map<int, u8>,
    b: Map<int, u8>,
    config: QueueConfig,
    head: u16,
    path: Seq<u16>,
)
    requires
        same_rings(a, b, config),
        vqueue::is_chain_path(a, config, head, path),
    ensures
        vqueue::is_chain_path(b, config, head, path),
        vqueue::path_chain(a, config, path) == vqueue::path_chain(b, config, path),
{
    assert forall|i: int| 0 <= i < path.len() implies #[trigger] path[i] < config.size by {
        assert(vqueue::desc_acceptable(a, config, path[i]));
    }
    assert forall|i: int| 0 <= i < path.len() implies vqueue::desc_acceptable(
        b,
        config,
        #[trigger] path[i],
    ) by {
        assert(vqueue::desc_acceptable(a, config, path[i]));
        lemma_desc_same(a, b, config, path[i]);
    }
    assert forall|i: int| 0 <= i < path.len() - 1 implies #[trigger] vqueue::links_on(
        b,
        config,
        path,
        i,
    ) by {
        assert(vqueue::links_on(a, config, path, i));
        assert(path[i] < config.size);
        lemma_desc_same(a, b, config, path[i]);
    }
    assert(path[path.len() - 1] < config.size);
    lemma_desc_same(a, b, config, path.last());
    lemma_path_sums_same(a, b, config, path);
}

proof fn lemma_chain_same(a: Map<int, u8>, b: Map<int, u8>, config: QueueConfig, head: u16)
    requires
        same_rings(a, b, config),
    ensures
        vqueue::chain_from(a, config, head) == vqueue::chain_from(b, config, head),
{
    if exists|path: Seq<u16>| vqueue::is_chain_path(a, config, head, path) {
        let p = choose|path: Seq<u16>| vqueue::is_chain_path(a, config, head, path);
        lemma_path_same(a, b, config, head, p);
        let q = choose|path: Seq<u16>| vqueue::is_chain_path(b, config, head, path);
        assert(vqueue::is_chain_path(b, config, head, q));
        vqueue::lemma_chain_path_unique(b, config, head, p, q);
    } else if exists|path: Seq<u16>| vqueue::is_chain_path(b, config, head, path) {
        let q = choose|path: Seq<u16>| vqueue::is_chain_path(b, config, head, path);
        lemma_path_same(b, a, config, head, q);
    }
}

/// The chain that the avail ring names at index `at`, if it is acceptable.
pub open spec fn chain_at(ram: Map<int, u8>, config: QueueConfig, at: u16) -> Option<ChainView> {
    vqueue::chain_from(ram, config, vqueue::avail_head(ram, config, at))
}

proof fn lemma_chain_at_same(a: Map<int, u8>, b: Map<int, u8>, config: QueueConfig, at: u16)
    requires
        same_rings(a, b, config),
        config.size > 0,
    ensures
        chain_at(a, config, at) == chain_at(b, config, at),
        vqueue::avail_head(a, config, at) == vqueue::avail_head(b, config, at),
{
    lemma_head_same(a, b, config, at);
    lemma_chain_same(a, b, config, vqueue::avail_head(a, config, at));
}

proof fn lemma_skip_same(
    a: Map<int, u8>,
    b: Map<int, u8>,
    config: QueueConfig,
    avail: u16,
    target: u16,
)
    requires
        same_rings(a, b, config),
        config.size > 0,
    ensures
        vqueue::skip_rejected(a, config, avail, target) == vqueue::skip_rejected(
            b,
            config,
            avail,
            target,
        ),
    decreases vqueue::idx_distance(avail, target),
{
    lemma_chain_at_same(a, b, config, avail);
    if avail != target && chain_at(a, config, avail) is None {
        lemma_skip_same(a, b, config, vqueue::next_idx(avail), target);
    }
}

/// The avail index of the chain that comes after `n` acceptable ones from `avail` on, or `target`
/// where there are no more.
pub open spec fn nth_chain(
    ram: Map<int, u8>,
    config: QueueConfig,
    avail: u16,
    target: u16,
    n: nat,
) -> u16
    decreases n,
{
    let at = vqueue::skip_rejected(ram, config, avail, target);
    if n == 0 {
        at
    } else {
        nth_chain(ram, config, vqueue::next_idx(at), target, (n - 1) as nat)
    }
}

proof fn lemma_nth_same(
    a: Map<int, u8>,
    b: Map<int, u8>,
    config: QueueConfig,
    avail: u16,
    target: u16,
    n: nat,
)
    requires
        same_rings(a, b, config),
        config.size > 0,
    ensures
        nth_chain(a, config, avail, target, n) == nth_chain(b, config, avail, target, n),
    decreases n,
{
    lemma_skip_same(a, b, config, avail, target);
    if n > 0 {
        let at = vqueue::skip_rejected(a, config, avail, target);
        lemma_nth_same(a, b, config, vqueue::next_idx(at), target, (n - 1) as nat);
    }
}

/// Address `a` lies in the entry of the used ring for index `used`.
pub open spec fn in_slot(config: QueueConfig, used: u16, a: int) -> bool {
    vqueue::used_slot(config, used) <= a < vqueue::used_slot(config, used) + 8
}

/// Address `a` lies in one of the `n` entries of the used ring from index `used` on.
pub open spec fn in_slots(config: QueueConfig, used: u16, n: int, a: int) -> bool {
    exists|j: int| 0 <= j < n && #[trigger] in_slot(config, pass_laws::idx_after(used, j), a)
}

/// The entry of the used ring for index `used` names descriptor `head` and the length `len`.
pub open spec fn entry_is(
    ram: Map<int, u8>,
    config: QueueConfig,
    used: u16,
    head: u16,
    len: u32,
) -> bool {
    guest_memory::ram_bytes(ram, vqueue::used_slot(config, used), 8) == bytes::le32_bytes(
        head as int,
    ) + bytes::le32_bytes(len as int)
}

/// An entry stands among the entries.
proof fn lemma_slot_in_entries(config: QueueConfig, used: u16)
    requires
        config.size > 0,
    ensures
        config.used_ring_addr + 4 <= vqueue::used_slot(config, used),
        vqueue::used_slot(config, used) + 8 <= config.used_ring_addr + 4 + 8 * config.size,
{
    let slot = used as int % config.size as int;
    assert(0 <= slot < config.size) by (nonlinear_arith)
        requires
            config.size > 0,
            slot == used as int % config.size as int,
    ;
}

/// Fewer steps than the ring has entries do not come back to the same entry.
proof fn lemma_slots_differ(config: QueueConfig, used: u16, j: int, a: int)
    requires
        vqueue::valid_queue_size(config.size as int, vqueue::MAX_QUEUE_SIZE as int),
        0 < j < config.size,
        in_slot(config, used, a),
    ensures
        !in_slot(config, pass_laws::idx_after(used, j), a),
{
    let n = config.size as int;
    let x = used as int;
    let y = pass_laws::idx_after(used, j) as int;
    assert(y == x + j || y == x + j - 0x1_0000);
    if y % n == x % n {
        let q = 0x1_0000int / n;
        assert(0x1_0000 == n * q) by {
            assert(0x1_0000int % n == 0) by (nonlinear_arith)
                requires
                    n == 1 || n == 2 || n == 4 || n == 8 || n == 16 || n == 32 || n == 64 || n
                        == 128 || n == 256,
            ;
            vstd::arithmetic::div_mod::lemma_fundamental_div_mod(0x1_0000, n);
        }
        vstd::arithmetic::div_mod::lemma_fundamental_div_mod(x, n);
        vstd::arithmetic::div_mod::lemma_fundamental_div_mod(y, n);
        let z = if y == x + j {
            y / n - x / n
        } else {
            y / n - x / n + q
        };
        assert(j == n * z) by (nonlinear_arith)
            requires
                x == n * (x / n) + x % n,
                y == n * (y / n) + y % n,
                x % n == y % n,
                0x1_0000 == n * q,
                y == x + j && z == y / n - x / n || y == x + j - 0x1_0000 && z == y / n - x / n
                    + q,
        ;
        assert(false) by (nonlinear_arith)
            requires
                j == n * z,
                0 < j < n,
        ;
    }
}

proof fn lemma_shifted_slot(config: QueueConfig, used: u16, n: int, a: int)
    requires
        0 < n,
        in_slots(config, vqueue::next_idx(used), n - 1, a),
    ensures
        in_slots(config, used, n, a),
{
    let next = vqueue::next_idx(used);
    let j = choose|j: int|
        0 <= j < n - 1 && #[trigger] in_slot(config, pass_laws::idx_after(next, j), a);
    assert(pass_laws::idx_after(next, j) == pass_laws::idx_after(used, j + 1));
    assert(in_slot(config, pass_laws::idx_after(used, j + 1), a));
}

/// `handler` may give the answer `r` for the chain at avail index `at`.
pub open spec fn may_answer<F: FnMut(&[(u64, u32)], &[(u64, u32)]) -> Option<u32>>(
    handler: F,
    ram: Map<int, u8>,
    config: QueueConfig,
    at: u16,
    r: Option<u32>,
) -> bool {
    &&& chain_at(ram, config, at) is Some
    &&& vqueue::descriptors_answer(
        handler,
        chain_at(ram, config, at)->0.readable,
        chain_at(ram, config, at)->0.writable,
        r,
    )
}

/// Chain number `i` of a pass from `s` to `t`, counted from zero, was answered with a length. Its
/// entry in the used ring says so, unless so many chains followed that the ring came round.
pub open spec fn completed_as<F: FnMut(&[(u64, u32)], &[(u64, u32)]) -> Option<u32>>(
    handler: F,
    config: QueueConfig,
    target: u16,
    s: PassState,
    t: PassState,
    i: nat,
) -> bool {
    let at = nth_chain(s.mem.ram, config, s.avail, target, i);
    exists|len: u32|
        #[trigger] may_answer(handler, s.mem.ram, config, at, Some(len)) && (t.done - s.done - i
            <= config.size ==> entry_is(
            t.mem.ram,
            config,
            pass_laws::idx_after(s.used, i as int),
            vqueue::avail_head(s.mem.ram, config, at),
            len,
        ))
}

/// Storing an entry changes that entry alone.
proof fn lemma_entry_stored(
    m: buffers::MemState,
    config: QueueConfig,
    used: u16,
    head: u16,
    len: u32,
)
    requires
        vqueue::queue_usable(m.ram, config),
        used_apart(config),
    ensures
        same_rings(m.ram, vqueue::used_entry_stored(m, config, used, head, len).ram, config),
        entry_is(
            vqueue::used_entry_stored(m, config, used, head, len).ram,
            config,
            used,
            head,
            len,
        ),
        forall|a: int|
            m.ram.dom().contains(a) && !in_slot(config, used, a)
                ==> #[trigger] vqueue::used_entry_stored(m, config, used, head, len).ram[a]
                == m.ram[a],
{
    let after = vqueue::used_entry_stored(m, config, used, head, len);
    let slot = vqueue::used_slot(config, used);
    let e = bytes::le32_bytes(head as int) + bytes::le32_bytes(len as int);
    lemma_slot_in_entries(config, used);
    assert(after.ram.dom() =~= m.ram.dom());
    assert forall|x: int| in_table(config, x) || in_avail(config, x) implies #[trigger] m.ram[x]
        == #[trigger] after.ram[x] by {
        assert(m.ram.dom().contains(x));
        if in_slot(config, used, x) {
            assert(in_used(config, x));
        }
    }
    let got = guest_memory::ram_bytes(after.ram, slot, 8);
    assert forall|k: int| 0 <= k < 8 implies #[trigger] got[k] == e[k] by {
        assert(m.ram.dom().contains(slot + k));
    }
    assert(got =~= e);
}

/// A pass that exposes buffers hands over the acceptable chains one after the other, in the order
/// of the avail ring, and completes each with the length of its answer, until the handler answers
/// one with nothing or there are no more. A chain that was answered with nothing stays: nothing is
/// entered for it in the used ring, the position stays in front of it, and the next pass, once the
/// index of the used ring is published, meets it first. Nothing but the entries of the completed
/// chains is written.
pub proof fn law_unanswered_chain_stays<F: FnMut(&[(u64, u32)], &[(u64, u32)]) -> Option<u32>>(
    handler: F,
    config: QueueConfig,
    target: u16,
    s: PassState,
    t: PassState,
)
    requires
        vqueue::queue_usable(s.mem.ram, config),
        used_apart(config),
        vqueue::descriptors_pass(handler, config, target, s, t),
    ensures
        s.done <= t.done,
        t.used == pass_laws::idx_after(s.used, t.done - s.done),
        t.avail == nth_chain(s.mem.ram, config, s.avail, target, (t.done - s.done) as nat),
        forall|i: nat|
            i < t.done - s.done ==> #[trigger] completed_as(handler, config, target, s, t, i),
        t.avail != target ==> may_answer(handler, s.mem.ram, config, t.avail, None),
        same_rings(s.mem.ram, t.mem.ram, config),
        forall|a: int|
            s.mem.ram.dom().contains(a) && !in_slots(config, s.used, t.done - s.done, a)
                ==> #[trigger] t.mem.ram[a] == s.mem.ram[a],
        t.avail != target ==> forall|later: u16|
            #![trigger vqueue::skip_rejected(
                vqueue::used_idx_stored(t.mem, config, t.used).ram,
                config,
                t.avail,
                later,
            )]
            vqueue::skip_rejected(
                vqueue::used_idx_stored(t.mem, config, t.used).ram,
                config,
                t.avail,
                later,
            ) == t.avail,
        chain_at(vqueue::used_idx_stored(t.mem, config, t.used).ram, config, t.avail) == chain_at(
            s.mem.ram,
            config,
            t.avail,
        ),
{
    lemma_pass_stops(handler, config, target, s, t);
    pass_laws::law_descriptors_pass_advances(handler, config, target, s, t);
    vqueue::lemma_usable_dom(s.mem.ram, t.mem.ram, config);
    lemma_published_same(t.mem, config, t.used);
    lemma_chain_at_same(s.mem.ram, t.mem.ram, config, t.avail);
    lemma_chain_at_same(
        t.mem.ram,
        vqueue::used_idx_stored(t.mem, config, t.used).ram,
        config,
        t.avail,
    );
}

/// Publishing the index of the used ring leaves what the guest has queued.
proof fn lemma_published_same(m: buffers::MemState, config: QueueConfig, used: u16)
    requires
        vqueue::queue_usable(m.ram, config),
        used_apart(config),
    ensures
        same_rings(m.ram, vqueue::used_idx_stored(m, config, used).ram, config),
{
    let after = vqueue::used_idx_stored(m, config, used);
    assert(after.ram.dom() =~= m.ram.dom());
    assert forall|x: int| in_table(config, x) || in_avail(config, x) implies #[trigger] m.ram[x]
        == #[trigger] after.ram[x] by {
        assert(m.ram.dom().contains(x));
        assert(!in_used(config, x));
    }
}

proof fn lemma_same_rings_on(
    a: Map<int, u8>,
    b: Map<int, u8>,
    c: Map<int, u8>,
    config: QueueConfig,
)
    requires
        same_rings(a, b, config),
        same_rings(b, c, config),
    ensures
        same_rings(a, c, config),
{
    assert forall|x: int| in_table(config, x) || in_avail(config, x) implies #[trigger] a[x]
        == #[trigger] c[x] by {
        assert(a[x] == b[x]);
        assert(b[x] == c[x]);
    }
}

/// From `a` to `b` only the entry for `used` changed, and from `b` to `c` only those for the
/// `n - 1` indices that follow.
proof fn lemma_slots_add(
    config: QueueConfig,
    used: u16,
    n: int,
    a: Map<int, u8>,
    b: Map<int, u8>,
    c: Map<int, u8>,
)
    requires
        0 < n,
        a.dom() == b.dom(),
        forall|x: int|
            a.dom().contains(x) && !in_slot(config, used, x) ==> #[trigger] b[x] == a[x],
        forall|x: int|
            b.dom().contains(x) && !in_slots(config, vqueue::next_idx(used), n - 1, x)
                ==> #[trigger] c[x] == b[x],
    ensures
        forall|x: int|
            a.dom().contains(x) && !in_slots(config, used, n, x) ==> #[trigger] c[x] == a[x],
{
    assert(pass_laws::idx_after(used, 0) == used);
    assert forall|x: int|
        a.dom().contains(x) && !in_slots(config, used, n, x) implies #[trigger] c[x] == a[x] by {
        if in_slot(config, used, x) {
            assert(in_slot(config, pass_laws::idx_after(used, 0), x));
        }
        if in_slots(config, vqueue::next_idx(used), n - 1, x) {
            lemma_shifted_slot(config, used, n, x);
        }
        assert(b[x] == a[x]);
    }
}

proof fn lemma_pass_stops<F: FnMut(&[(u64, u32)], &[(u64, u32)]) -> Option<u32>>(
    handler: F,
    config: QueueConfig,
    target: u16,
    s: PassState,
    t: PassState,
)
    requires
        vqueue::queue_usable(s.mem.ram, config),
        used_apart(config),
        vqueue::descriptors_pass(handler, config, target, s, t),
    ensures
        s.done <= t.done,
        t.avail == nth_chain(s.mem.ram, config, s.avail, target, (t.done - s.done) as nat),
        forall|i: nat|
            i < t.done - s.done ==> #[trigger] completed_as(handler, config, target, s, t, i),
        t.avail != target ==> may_answer(handler, s.mem.ram, config, t.avail, None),
        same_rings(s.mem.ram, t.mem.ram, config),
        forall|a: int|
            s.mem.ram.dom().contains(a) && !in_slots(config, s.used, t.done - s.done, a)
                ==> #[trigger] t.mem.ram[a] == s.mem.ram[a],
    decreases vqueue::idx_distance(s.avail, target),
{
    let ram = s.mem.ram;
    let k = s.skipped(config, target);
    vqueue::lemma_skip_rejected(ram, config, s.avail, target);
    if k.avail != target {
        let head = vqueue::avail_head(ram, config, k.avail);
        let chain = vqueue::chain_from(ram, config, head)->0;
        if !(t == k && vqueue::descriptors_answer(handler, chain.readable, chain.writable, None)) {
            let len = choose|len: u32|
                #![trigger k.completed(config, head, len)]
                vqueue::descriptors_answer(handler, chain.readable, chain.writable, Some(len))
                    && vqueue::descriptors_pass(
                    handler,
                    config,
                    target,
                    k.completed(config, head, len),
                    t,
                );
            let next = k.completed(config, head, len);
            lemma_entry_stored(k.mem, config, k.used, head, len);
            vqueue::lemma_usable_dom(ram, next.mem.ram, config);
            lemma_pass_stops(handler, config, target, next, t);
            let n = (t.done - s.done) as nat;
            let rest = (n - 1) as nat;
            lemma_nth_same(ram, next.mem.ram, config, next.avail, target, rest);
            lemma_same_rings_on(ram, next.mem.ram, t.mem.ram, config);
            lemma_slots_add(config, s.used, n as int, ram, next.mem.ram, t.mem.ram);
            if t.avail != target {
                lemma_chain_at_same(ram, next.mem.ram, config, t.avail);
            }
            assert forall|i: nat| i < n implies #[trigger] completed_as(
                handler,
                config,
                target,
                s,
                t,
                i,
            ) by {
                if i == 0 {
                    lemma_first_completed(handler, config, target, s, next, t, head, len);
                } else {
                    lemma_later_completed(handler, config, target, s, next, t, (i - 1) as nat);
                }
            }
        }
    }
}

proof fn lemma_later_completed<F: FnMut(&[(u64, u32)], &[(u64, u32)]) -> Option<u32>>(
    handler: F,
    config: QueueConfig,
    target: u16,
    s: PassState,
    next: PassState,
    t: PassState,
    i: nat,
)
    requires
        config.size > 0,
        same_rings(s.mem.ram, next.mem.ram, config),
        next.avail == vqueue::next_idx(s.skipped(config, target).avail),
        next.used == vqueue::next_idx(s.used),
        next.done == s.done + 1,
        completed_as(handler, config, target, next, t, i),
    ensures
        completed_as(handler, config, target, s, t, i + 1),
{
    let ram = s.mem.ram;
    let at = nth_chain(next.mem.ram, config, next.avail, target, i);
    lemma_nth_same(ram, next.mem.ram, config, next.avail, target, i);
    assert(nth_chain(ram, config, s.avail, target, i + 1) == at);
    lemma_chain_at_same(ram, next.mem.ram, config, at);
    assert(pass_laws::idx_after(next.used, i as int) == pass_laws::idx_after(s.used, i as int + 1));
    let len = choose|len: u32|
        #[trigger] may_answer(handler, next.mem.ram, config, at, Some(len)) && (t.done - next.done
            - i <= config.size ==> entry_is(
            t.mem.ram,
            config,
            pass_laws::idx_after(next.used, i as int),
            vqueue::avail_head(next.mem.ram, config, at),
            len,
        ));
    assert(may_answer(handler, ram, config, at, Some(len)));
}

proof fn lemma_first_completed<F: FnMut(&[(u64, u32)], &[(u64, u32)]) -> Option<u32>>(
    handler: F,
    config: QueueConfig,
    target: u16,
    s: PassState,
    next: PassState,
    t: PassState,
    head: u16,
    len: u32,
)
    requires
        vqueue::queue_usable(s.mem.ram, config),
        next.mem.ram.dom() == s.mem.ram.dom(),
        next.used == vqueue::next_idx(s.used),
        next.done == s.done + 1,
        next.done <= t.done,
        head == vqueue::avail_head(s.mem.ram, config, s.skipped(config, target).avail),
        may_answer(handler, s.mem.ram, config, s.skipped(config, target).avail, Some(len)),
        entry_is(next.mem.ram, config, s.used, head, len),
        forall|a: int|
            next.mem.ram.dom().contains(a) && !in_slots(config, next.used, t.done - next.done, a)
                ==> #[trigger] t.mem.ram[a] == next.mem.ram[a],
    ensures
        completed_as(handler, config, target, s, t, 0),
{
    let at = s.skipped(config, target).avail;
    assert(nth_chain(s.mem.ram, config, s.avail, target, 0) == at);
    assert(pass_laws::idx_after(s.used, 0) == s.used);
    if t.done - s.done <= config.size {
        let slot = vqueue::used_slot(config, s.used);
        lemma_slot_in_entries(config, s.used);
        let x = guest_memory::ram_bytes(next.mem.ram, slot, 8);
        let y = guest_memory::ram_bytes(t.mem.ram, slot, 8);
        assert forall|i: int| 0 <= i < 8 implies #[trigger] x[i] == y[i] by {
            let a = slot + i;
            assert(next.mem.ram.dom().contains(a));
            assert(in_slot(config, s.used, a));
            if in_slots(config, next.used, t.done - next.done, a) {
                let j = choose|j: int|
                    0 <= j < t.done - next.done && #[trigger] in_slot(
                        config,
                        pass_laws::idx_after(next.used, j),
                        a,
                    );
                assert(pass_laws::idx_after(next.used, j) == pass_laws::idx_after(s.used, j + 1));
                lemma_slots_differ(config, s.used, j + 1, a);
            }
            assert(t.mem.ram[a] == next.mem.ram[a]);
        }
        assert(x =~= y);
    }
    assert(may_answer(handler, s.mem.ram, config, at, Some(len)));
}

/// The device may write address `a` by way of descriptor `d`: `a` lies in its buffer, or is its
/// address, at which a status byte goes even where the buffer is empty.
pub open spec fn covers(d: Descriptor, a: int) -> bool {
    d.flags & desc_flags::WRITE != 0 && (d.addr <= a < d.addr + d.len || a == d.addr)
}

/// Address `a` lies in a buffer that the device may write.
pub open spec fn in_buffer(ram: Map<int, u8>, config: QueueConfig, a: int) -> bool {
    exists|i: u16| i < config.size && covers(#[trigger] vqueue::desc_at(ram, config, i), a)
}

/// No buffer that the device may write overlaps a ring or the descriptor table.
pub open spec fn buffers_apart(ram: Map<int, u8>, config: QueueConfig) -> bool {
    forall|a: int| #[trigger]
        in_buffer(ram, config, a) ==> !in_table(config, a) && !in_avail(config, a) && !in_used(
            config,
            a,
        )
}

/// How many acceptable chains stand in the avail ring from `avail` up to `target`.
pub open spec fn chains_between(
    ram: Map<int, u8>,
    config: QueueConfig,
    avail: u16,
    target: u16,
) -> nat
    decreases vqueue::idx_distance(avail, target),
{
    let at = vqueue::skip_rejected(ram, config, avail, target);
    if at == target || vqueue::idx_distance(at, target) > vqueue::idx_distance(avail, target) {
        0
    } else {
        1 + chains_between(ram, config, vqueue::next_idx(at), target)
    }
}

proof fn lemma_chains_same(
    a: Map<int, u8>,
    b: Map<int, u8>,
    config: QueueConfig,
    avail: u16,
    target: u16,
)
    requires
        same_rings(a, b, config),
        config.size > 0,
    ensures
        chains_between(a, config, avail, target) == chains_between(b, config, avail, target),
    decreases vqueue::idx_distance(avail, target),
{
    lemma_skip_same(a, b, config, avail, target);
    let at = vqueue::skip_rejected(a, config, avail, target);
    if !(at == target || vqueue::idx_distance(at, target) > vqueue::idx_distance(avail, target)) {
        lemma_chains_same(a, b, config, vqueue::next_idx(at), target);
    }
}

proof fn lemma_buffers_same(a: Map<int, u8>, b: Map<int, u8>, config: QueueConfig, x: int)
    requires
        same_rings(a, b, config),
        in_buffer(a, config, x),
    ensures
        in_buffer(b, config, x),
{
    let i = choose|i: u16| i < config.size && covers(#[trigger] vqueue::desc_at(a, config, i), x);
    lemma_desc_same(a, b, config, i);
    assert(covers(vqueue::desc_at(b, config, i), x));
}

/// Laying data over buffers changes only bytes of the buffers.
proof fn lemma_scatter_confined(
    m: buffers::MemState,
    bufs: Seq<(u64, u32)>,
    data: Seq<u8>,
    a: int,
)
    requires
        m.ram.dom().contains(a),
        forall|j: int|
            0 <= j < bufs.len() ==> !((#[trigger] bufs[j]).0 <= a < bufs[j].0 + bufs[j].1),
    ensures
        buffers::scatter(m, bufs, data).ram[a] == m.ram[a],
    decreases bufs.len(),
{
    if bufs.len() > 0 && data.len() > 0 {
        let n = if bufs[0].1 < data.len() {
            bufs[0].1 as int
        } else {
            data.len() as int
        };
        let first = if n > 0 {
            m.store(bufs[0].0 as int, data.take(n))
        } else {
            m
        };
        assert(!(bufs[0].0 <= a < bufs[0].0 + bufs[0].1));
        assert forall|j: int| 0 <= j < bufs.skip(1).len() implies !((#[trigger] bufs.skip(1)[j]).0
            <= a < bufs.skip(1)[j].0 + bufs.skip(1)[j].1) by {
            assert(bufs.skip(1)[j] == bufs[j + 1]);
        }
        lemma_scatter_confined(first, bufs.skip(1), data.skip(n), a);
    }
}

/// Every writable buffer along a path is one of the table.
proof fn lemma_path_buffer(
    ram: Map<int, u8>,
    config: QueueConfig,
    path: Seq<u16>,
    j: int,
    a: int,
)
    requires
        forall|i: int| 0 <= i < path.len() ==> #[trigger] path[i] < config.size,
        0 <= j < vqueue::path_buffers(ram, config, path, true).len(),
        ({
            let b = vqueue::path_buffers(ram, config, path, true)[j];
            b.0 <= a < b.0 + b.1 || a == b.0
        }),
    ensures
        in_buffer(ram, config, a),
    decreases path.len(),
{
    if path.len() > 0 {
        let d = vqueue::desc_at(ram, config, path.last());
        let front = vqueue::path_buffers(ram, config, path.drop_last(), true);
        assert forall|i: int| 0 <= i < path.drop_last().len() implies #[trigger] path.drop_last()[i]
            < config.size by {
            assert(path.drop_last()[i] == path[i]);
        }
        if j < front.len() {
            lemma_path_buffer(ram, config, path.drop_last(), j, a);
        } else {
            assert(path[path.len() - 1] < config.size);
            assert(covers(d, a));
        }
    }
}

/// Answering a request changes only bytes of the chain's buffers.
proof fn lemma_reply_confined(
    m: buffers::MemState,
    config: QueueConfig,
    head: u16,
    data: Seq<u8>,
    status: u8,
    a: int,
)
    requires
        vqueue::chain_from(m.ram, config, head) is Some,
        m.ram.dom().contains(a),
        !in_buffer(m.ram, config, a),
    ensures
        vqueue::reply_stored(
            m,
            vqueue::chain_from(m.ram, config, head)->0.writable,
            data,
            status,
        ).ram[a] == m.ram[a],
{
    let path = choose|path: Seq<u16>| vqueue::is_chain_path(m.ram, config, head, path);
    let writable = vqueue::path_buffers(m.ram, config, path, true);
    assert forall|i: int| 0 <= i < path.len() implies #[trigger] path[i] < config.size by {
        assert(vqueue::desc_acceptable(m.ram, config, path[i]));
    }
    assert forall|j: int| 0 <= j < writable.len() implies !((#[trigger] writable[j]).0 <= a
        < writable[j].0 + writable[j].1) && a != writable[j].0 by {
        if writable[j].0 <= a < writable[j].0 + writable[j].1 || a == writable[j].0 {
            lemma_path_buffer(m.ram, config, path, j, a);
        }
    }
    let bufs = vqueue::data_buffers(writable);
    assert forall|j: int| 0 <= j < bufs.len() implies !((#[trigger] bufs[j]).0 <= a < bufs[j].0
        + bufs[j].1) by {
        assert(bufs[j] == writable[j]);
    }
    lemma_scatter_confined(m, bufs, data, a);
    buffers::lemma_scatter_dom(m, bufs, data);
    if writable.len() > 0 {
        assert(a != writable[writable.len() - 1].0);
    }
}

/// A pass over requests takes up every acceptable chain that the guest had made available, each
/// once, and ends at the index of the avail ring that it started out for. Where no buffer overlaps
/// a ring, it writes the buffers, an entry of the used ring for each chain, and the ring's index:
/// the flags of the used ring, what the guest has queued and all other memory stay as they are.
pub proof fn law_requests_leave_the_rest<F: FnMut(&[u8], Vec<u8>) -> (Vec<u8>, u8)>(
    handler: F,
    config: QueueConfig,
    target: u16,
    s: PassState,
    t: PassState,
)
    requires
        vqueue::queue_usable(s.mem.ram, config),
        used_apart(config),
        buffers_apart(s.mem.ram, config),
        vqueue::requests_pass(handler, config, target, s, t),
    ensures
        t.avail == target,
        t.done == s.done + chains_between(s.mem.ram, config, s.avail, target),
        t.used == pass_laws::idx_after(s.used, t.done - s.done),
        ({
            let now = vqueue::used_idx_stored(t.mem, config, t.used).ram;
            &&& vqueue::used_ring_idx(now, config) == t.used
            &&& guest_memory::ram_bytes(now, config.used_ring_addr as int, 2)
                == guest_memory::ram_bytes(s.mem.ram, config.used_ring_addr as int, 2)
            &&& same_rings(s.mem.ram, now, config)
            &&& forall|a: int|
                s.mem.ram.dom().contains(a) && !in_buffer(s.mem.ram, config, a) && !in_entries(
                    config,
                    a,
                ) && !(config.used_ring_addr + 2 <= a < config.used_ring_addr + 4)
                    ==> #[trigger] now[a] == s.mem.ram[a]
        }),
{
    let ram = s.mem.ram;
    let now = vqueue::used_idx_stored(t.mem, config, t.used).ram;
    lemma_requests_confined(handler, config, target, s, t);
    pass_laws::law_requests_pass_advances(handler, config, target, s, t);
    vqueue::lemma_usable_dom(ram, t.mem.ram, config);
    vqueue::lemma_published(t.mem, config, t.used);
    lemma_published_same(t.mem, config, t.used);
    lemma_same_rings_on(ram, t.mem.ram, now, config);
    let at = config.used_ring_addr as int;
    let x = guest_memory::ram_bytes(now, at, 2);
    let y = guest_memory::ram_bytes(ram, at, 2);
    assert forall|k: int| 0 <= k < 2 implies #[trigger] x[k] == y[k] by {
        assert(in_used(config, at + k));
        assert(ram.dom().contains(at + k));
        assert(t.mem.ram[at + k] == ram[at + k]);
    }
    assert(x =~= y);
    assert forall|a: int|
        ram.dom().contains(a) && !in_buffer(ram, config, a) && !in_entries(config, a) && !(
        config.used_ring_addr + 2 <= a < config.used_ring_addr + 4) implies #[trigger] now[a]
        == ram[a] by {
        assert(t.mem.ram[a] == ram[a]);
    }
}

proof fn lemma_requests_confined<F: FnMut(&[u8], Vec<u8>) -> (Vec<u8>, u8)>(
    handler: F,
    config: QueueConfig,
    target: u16,
    s: PassState,
    t: PassState,
)
    requires
        vqueue::queue_usable(s.mem.ram, config),
        used_apart(config),
        buffers_apart(s.mem.ram, config),
        vqueue::requests_pass(handler, config, target, s, t),
    ensures
        t.done == s.done + chains_between(s.mem.ram, config, s.avail, target),
        same_rings(s.mem.ram, t.mem.ram, config),
        forall|a: int|
            s.mem.ram.dom().contains(a) && !in_buffer(s.mem.ram, config, a) && !in_entries(
                config,
                a,
            ) ==> #[trigger] t.mem.ram[a] == s.mem.ram[a],
    decreases vqueue::idx_distance(s.avail, target),
{
    let ram = s.mem.ram;
    let k = s.skipped(config, target);
    vqueue::lemma_skip_rejected(ram, config, s.avail, target);
    if k.avail != target {
        let head = vqueue::avail_head(ram, config, k.avail);
        let chain = vqueue::chain_from(ram, config, head)->0;
        let (after, status) = choose|after: Seq<u8>, status: u8|
            #![trigger vqueue::reply_stored(k.mem, chain.writable, after, status)]
            {
                &&& vqueue::request_answer(
                    handler,
                    buffers::gather(k.mem.ram, chain.readable),
                    buffers::gather(k.mem.ram, vqueue::data_buffers(chain.writable)),
                    after,
                    status,
                )
                &&& vqueue::requests_pass(
                    handler,
                    config,
                    target,
                    PassState {
                        mem: vqueue::reply_stored(k.mem, chain.writable, after, status),
                        ..k
                    }.completed(config, head, chain.len as u32),
                    t,
                )
            };
        let worked = vqueue::reply_stored(k.mem, chain.writable, after, status);
        let next = PassState { mem: worked, ..k }.completed(config, head, chain.len as u32);
        lemma_reply_leaves(k.mem, config, head, after, status);
        vqueue::lemma_usable_dom(ram, worked.ram, config);
        lemma_entry_stored(worked, config, k.used, head, chain.len as u32);
        lemma_same_rings_on(ram, worked.ram, next.mem.ram, config);
        vqueue::lemma_usable_dom(ram, next.mem.ram, config);
        assert(buffers_apart(next.mem.ram, config)) by {
            assert forall|a: int| #[trigger] in_buffer(next.mem.ram, config, a) implies !in_table(
                config,
                a,
            ) && !in_avail(config, a) && !in_used(config, a) by {
                lemma_same_rings_back(ram, next.mem.ram, config);
                lemma_buffers_same(next.mem.ram, ram, config, a);
            }
        }
        lemma_requests_confined(handler, config, target, next, t);
        lemma_chains_same(ram, next.mem.ram, config, next.avail, target);
        lemma_same_rings_on(ram, next.mem.ram, t.mem.ram, config);
        lemma_slot_in_entries(config, k.used);
        assert forall|a: int|
            ram.dom().contains(a) && !in_buffer(ram, config, a) && !in_entries(
                config,
                a,
            ) implies #[trigger] t.mem.ram[a] == ram[a] by {
            if in_buffer(next.mem.ram, config, a) {
                lemma_same_rings_back(ram, next.mem.ram, config);
                lemma_buffers_same(next.mem.ram, ram, config, a);
            }
            assert(worked.ram[a] == ram[a]);
            assert(next.mem.ram[a] == worked.ram[a]);
        }
    }
}

proof fn lemma_same_rings_back(a: Map<int, u8>, b: Map<int, u8>, config: QueueConfig)
    requires
        same_rings(a, b, config),
    ensures
        same_rings(b, a, config),
{
}

/// Answering a request leaves what the guest has queued, and all memory outside the buffers.
proof fn lemma_reply_leaves(
    m: buffers::MemState,
    config: QueueConfig,
    head: u16,
    data: Seq<u8>,
    status: u8,
)
    requires
        vqueue::queue_usable(m.ram, config),
        buffers_apart(m.ram, config),
        vqueue::chain_from(m.ram, config, head) is Some,
    ensures
        ({
            let worked = vqueue::reply_stored(
                m,
                vqueue::chain_from(m.ram, config, head)->0.writable,
                data,
                status,
            );
            &&& same_rings(m.ram, worked.ram, config)
            &&& forall|a: int|
                m.ram.dom().contains(a) && !in_buffer(m.ram, config, a)
                    ==> #[trigger] worked.ram[a] == m.ram[a]
        }),
{
    let writable = vqueue::chain_from(m.ram, config, head)->0.writable;
    let worked = vqueue::reply_stored(m, writable, data, status);
    buffers::lemma_scatter_dom(m, vqueue::data_buffers(writable), data);
    assert(worked.ram.dom() =~= m.ram.dom());
    assert forall|a: int|
        m.ram.dom().contains(a) && !in_buffer(m.ram, config, a) implies #[trigger] worked.ram[a]
        == m.ram[a] by {
        lemma_reply_confined(m, config, head, data, status, a);
    }
    assert forall|x: int| in_table(config, x) || in_avail(config, x) implies #[trigger] m.ram[x]
        == #[trigger] worked.ram[x] by {
        assert(m.ram.dom().contains(x));
        assert(!in_buffer(m.ram, config, x));
    }
}

} // verus!
