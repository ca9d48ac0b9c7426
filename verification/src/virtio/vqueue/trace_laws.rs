//! How chains are found in guest memory, and the turns in which a pass takes them up.
use crate::bytes;
use crate::guest_memory;
use crate::virtio::buffers::laws as places;
use crate::virtio::buffers::MemState;
use crate::virtio::vqueue::pass_laws;
use crate::virtio::vqueue::{
    self, ChainStep, ChainView, Pass, PassState, QueueConfig, VirtQueueProcessor,
};
use vstd::prelude::*;

verus! {

/// The 16-bit integer at address `a`, least significant byte first.
pub open spec fn word16(ram: Map<int, u8>, a: int) -> int {
    ram[a] + 256 * ram[a + 1]
}

/// The 32-bit integer at address `a`, least significant byte first.
pub open spec fn word32(ram: Map<int, u8>, a: int) -> int {
    ram[a] + 256 * ram[a + 1] + 65536 * ram[a + 2] + 16777216 * ram[a + 3]
}

/// The 64-bit integer at address `a`, least significant byte first.
pub open spec fn word64(ram: Map<int, u8>, a: int) -> int {
    word32(ram, a) + 4294967296 * word32(ram, a + 4)
}

/// A descriptor is 16 bytes of the table: the address of its buffer, the length, the flags and
/// the descriptor that follows.
pub proof fn law_descriptor_stands_in_table(ram: Map<int, u8>, config: QueueConfig, i: u16)
    ensures
        ({
            let d = vqueue::desc_at(ram, config, i);
            let at = config.desc_table_addr + 16 * i;
            &&& d.addr == word64(ram, at)
            &&& d.len == word32(ram, at + 8)
            &&& d.flags == word16(ram, at + 12)
            &&& d.next == word16(ram, at + 14)
        }),
{
    let at = config.desc_table_addr + 16 * i;
    let b = guest_memory::ram_bytes(ram, at, 16);
    bytes::lemma_le64_stands(b, 0);
    bytes::lemma_le32_stands(b, 8);
    bytes::lemma_le16_stands(b, 12);
    bytes::lemma_le16_stands(b, 14);
    assert(b[0] == ram[at] && b[1] == ram[at + 1] && b[2] == ram[at + 2] && b[3] == ram[at + 3]);
    assert(b[4] == ram[at + 4] && b[5] == ram[at + 5] && b[6] == ram[at + 6] && b[7] == ram[at
        + 7]);
}

/// The avail ring holds flags, the index up to which there are chains, and a ring of heads; the
/// used ring holds flags and its own index.
pub proof fn law_rings_stand_in_memory(ram: Map<int, u8>, config: QueueConfig, i: u16)
    ensures
        vqueue::avail_ring_idx(ram, config) == word16(ram, config.avail_ring_addr + 2),
        vqueue::used_ring_idx(ram, config) == word16(ram, config.used_ring_addr + 2),
        vqueue::avail_head(ram, config, i) == word16(
            ram,
            config.avail_ring_addr + 4 + 2 * (i as int % config.size as int),
        ),
{
    let a = guest_memory::ram_bytes(ram, config.avail_ring_addr as int, 4);
    let u = guest_memory::ram_bytes(ram, config.used_ring_addr as int, 4);
    let at = config.avail_ring_addr + 4 + 2 * (i as int % config.size as int);
    let h = guest_memory::ram_bytes(ram, at, 2);
    bytes::lemma_le16_stands(a, 2);
    bytes::lemma_le16_stands(u, 2);
    bytes::lemma_le16_stands(h, 0);
    assert(h[0] == ram[at] && h[1] == ram[at + 1]);
}

/// The bytes of the buffers of the first `n` descriptors of a list.
pub open spec fn bytes_of(ram: Map<int, u8>, config: QueueConfig, path: Seq<u16>, n: int) -> int
    decreases n,
{
    if n <= 0 {
        0
    } else {
        bytes_of(ram, config, path, n - 1) + word32(
            ram,
            config.desc_table_addr + 16 * path[n - 1] + 8,
        )
    }
}

/// The flags of a descriptor.
pub open spec fn flags_of(ram: Map<int, u8>, config: QueueConfig, i: u16) -> u16 {
    word16(ram, config.desc_table_addr + 16 * i + 12) as u16
}

/// A descriptor that a chain may hold: it stands in the table, is not indirect, and its buffer is
/// of at most one mebibyte, all of it mapped.
pub open spec fn may_stand(ram: Map<int, u8>, config: QueueConfig, i: u16) -> bool {
    let at = config.desc_table_addr + 16 * i;
    &&& i < config.size
    &&& flags_of(ram, config, i) & 4 == 0
    &&& word32(ram, at + 8) <= 1048576
    &&& word32(ram, at + 8) == 0 || guest_memory::is_mapped(
        ram,
        word64(ram, at),
        word32(ram, at + 8),
    )
}

/// `path` lists the descriptors of a chain from `head` on: each but the last is flagged to go on
/// and names the next, none stands twice, and the buffers have at most four mebibytes.
pub open spec fn is_walk(
    ram: Map<int, u8>,
    config: QueueConfig,
    head: u16,
    path: Seq<u16>,
) -> bool {
    &&& path.len() > 0
    &&& path[0] == head
    &&& forall|i: int, j: int| 0 <= i < j < path.len() ==> #[trigger] path[i] != #[trigger] path[j]
    &&& forall|i: int| 0 <= i < path.len() ==> may_stand(ram, config, #[trigger] path[i])
    &&& forall|i: int|
        0 <= i < path.len() - 1 ==> flags_of(ram, config, #[trigger] path[i]) & 1 != 0 && word16(
            ram,
            config.desc_table_addr + 16 * path[i] + 14,
        ) == path[i + 1]
    &&& flags_of(ram, config, path.last()) & 1 == 0
    &&& bytes_of(ram, config, path, path.len() as int) <= 4194304
}

/// How many of the first `n` descriptors of a list have a buffer that the device may write, or
/// one that it may not.
pub open spec fn count_of(
    ram: Map<int, u8>,
    config: QueueConfig,
    path: Seq<u16>,
    n: int,
    writable: bool,
) -> int
    decreases n,
{
    if n <= 0 {
        0
    } else {
        count_of(ram, config, path, n - 1, writable) + (if (flags_of(ram, config, path[n - 1]) & 2
            != 0) == writable {
            1int
        } else {
            0
        })
    }
}

/// The buffers of a chain are those of its descriptors, in their order, parted by who may write
/// them.
pub open spec fn has_buffers(
    ram: Map<int, u8>,
    config: QueueConfig,
    path: Seq<u16>,
    bufs: Seq<(u64, u32)>,
    writable: bool,
) -> bool {
    &&& bufs.len() == count_of(ram, config, path, path.len() as int, writable)
    &&& forall|i: int|
        0 <= i < path.len() && (flags_of(ram, config, #[trigger] path[i]) & 2 != 0) == writable
            ==> {
            let k = count_of(ram, config, path, i, writable);
            let at = config.desc_table_addr + 16 * path[i];
            0 <= k < bufs.len() && bufs[k].0 == word64(ram, at) && bufs[k].1 == word32(ram, at + 8)
        }
}

proof fn lemma_flags(ram: Map<int, u8>, config: QueueConfig, i: u16)
    ensures
        vqueue::desc_at(ram, config, i).flags == flags_of(ram, config, i),
{
    law_descriptor_stands_in_table(ram, config, i);
}

proof fn lemma_bytes_of(ram: Map<int, u8>, config: QueueConfig, path: Seq<u16>, n: int)
    requires
        0 <= n <= path.len(),
    ensures
        vqueue::path_bytes(ram, config, path.take(n)) == bytes_of(ram, config, path, n),
    decreases n,
{
    if n > 0 {
        lemma_bytes_of(ram, config, path, n - 1);
        assert(path.take(n).drop_last() =~= path.take(n - 1));
        law_descriptor_stands_in_table(ram, config, path[n - 1]);
    }
}

proof fn lemma_walk(ram: Map<int, u8>, config: QueueConfig, head: u16, path: Seq<u16>)
    ensures
        vqueue::is_chain_path(ram, config, head, path) == is_walk(ram, config, head, path),
{
    if path.len() > 0 {
        lemma_bytes_of(ram, config, path, path.len() as int);
        assert(path.take(path.len() as int) =~= path);
        lemma_flags(ram, config, path.last());
        assert forall|i: int| 0 <= i < path.len() implies vqueue::desc_acceptable(
            ram,
            config,
            #[trigger] path[i],
        ) == may_stand(ram, config, path[i]) by {
            law_descriptor_stands_in_table(ram, config, path[i]);
        }
        assert forall|i: int| 0 <= i < path.len() - 1 implies #[trigger] vqueue::links_on(
            ram,
            config,
            path,
            i,
        ) == (flags_of(ram, config, path[i]) & 1 != 0 && word16(
            ram,
            config.desc_table_addr + 16 * path[i] + 14,
        ) == path[i + 1]) by {
            law_descriptor_stands_in_table(ram, config, path[i]);
        }
        if vqueue::is_chain_path(ram, config, head, path) {
            assert forall|i: int| 0 <= i < path.len() - 1 implies flags_of(
                ram,
                config,
                #[trigger] path[i],
            ) & 1 != 0 && word16(ram, config.desc_table_addr + 16 * path[i] + 14) == path[i
                + 1] by {
                assert(vqueue::links_on(ram, config, path, i));
            }
        }
        if is_walk(ram, config, head, path) {
            assert forall|i: int| 0 <= i < path.len() implies vqueue::desc_acceptable(
                ram,
                config,
                #[trigger] path[i],
            ) by {
                assert(may_stand(ram, config, path[i]));
            }
            assert forall|i: int| 0 <= i < path.len() - 1 implies #[trigger] vqueue::links_on(
                ram,
                config,
                path,
                i,
            ) by {
                assert(flags_of(ram, config, path[i]) & 1 != 0);
            }
        }
    }
}

proof fn lemma_count_grows(
    ram: Map<int, u8>,
    config: QueueConfig,
    path: Seq<u16>,
    i: int,
    n: int,
    writable: bool,
)
    requires
        0 <= i <= n,
    ensures
        0 <= count_of(ram, config, path, i, writable) <= count_of(ram, config, path, n, writable),
    decreases n,
{
    if i < n {
        lemma_count_grows(ram, config, path, i, n - 1, writable);
    } else if n > 0 {
        lemma_count_grows(ram, config, path, n - 1, n - 1, writable);
    }
}

proof fn lemma_count_front(
    ram: Map<int, u8>,
    config: QueueConfig,
    path: Seq<u16>,
    n: int,
    writable: bool,
)
    requires
        n <= path.len() - 1,
    ensures
        count_of(ram, config, path.drop_last(), n, writable) == count_of(
            ram,
            config,
            path,
            n,
            writable,
        ),
    decreases n,
{
    if n > 0 {
        lemma_count_front(ram, config, path, n - 1, writable);
        assert(path.drop_last()[n - 1] == path[n - 1]);
    }
}

proof fn lemma_has_buffers(
    ram: Map<int, u8>,
    config: QueueConfig,
    path: Seq<u16>,
    writable: bool,
)
    ensures
        has_buffers(
            ram,
            config,
            path,
            vqueue::path_buffers(ram, config, path, writable),
            writable,
        ),
    decreases path.len(),
{
    let bufs = vqueue::path_buffers(ram, config, path, writable);
    if path.len() > 0 {
        let front = path.drop_last();
        let n = path.len() - 1;
        lemma_has_buffers(ram, config, front, writable);
        let had = vqueue::path_buffers(ram, config, front, writable);
        lemma_count_front(ram, config, path, n, writable);
        law_descriptor_stands_in_table(ram, config, path.last());
        assert forall|i: int|
            0 <= i < path.len() && (flags_of(ram, config, #[trigger] path[i]) & 2 != 0)
                == writable implies {
            let k = count_of(ram, config, path, i, writable);
            let at = config.desc_table_addr + 16 * path[i];
            0 <= k < bufs.len() && bufs[k].0 == word64(ram, at) && bufs[k].1 == word32(ram, at + 8)
        } by {
            lemma_count_front(ram, config, path, i, writable);
            lemma_count_grows(ram, config, path, i, n, writable);
            if i < n {
                assert(front[i] == path[i]);
                assert(bufs[count_of(ram, config, path, i, writable)] == had[count_of(
                    ram,
                    config,
                    path,
                    i,
                    writable,
                )]);
            }
        }
    }
}

/// A chain is what a walk through the table finds, and nothing else is taken for one. Where the
/// descriptors from `head` on can be walked to an end, there is a chain, with one entry for each
/// of them; where they cannot, there is none.
pub proof fn law_chain_is_walked(
    ram: Map<int, u8>,
    config: QueueConfig,
    head: u16,
) -> (path: Seq<u16>)
    ensures
        vqueue::chain_from(ram, config, head) matches Some(c) ==> {
            &&& is_walk(ram, config, head, path)
            &&& c.len == path.len()
            &&& has_buffers(ram, config, path, c.readable, false)
            &&& has_buffers(ram, config, path, c.writable, true)
        },
        vqueue::chain_from(ram, config, head) is None ==> forall|p: Seq<u16>|
            !#[trigger] is_walk(ram, config, head, p),
{
    let path = choose|path: Seq<u16>| vqueue::is_chain_path(ram, config, head, path);
    lemma_walk(ram, config, head, path);
    lemma_has_buffers(ram, config, path, true);
    lemma_has_buffers(ram, config, path, false);
    if vqueue::chain_from(ram, config, head) is None {
        assert forall|p: Seq<u16>| !#[trigger] is_walk(ram, config, head, p) by {
            lemma_walk(ram, config, head, p);
            assert(!vqueue::is_chain_path(ram, config, head, p));
        }
    }
    path
}

/// None of the `n` entries of the avail ring from index `from` on names a chain, and none is the
/// target.
pub open spec fn all_rejected(
    ram: Map<int, u8>,
    config: QueueConfig,
    from: u16,
    target: u16,
    n: int,
) -> bool {
    forall|i: int|
        0 <= i < n ==> #[trigger] pass_laws::idx_after(from, i) != target && chain_named(
            ram,
            config,
            pass_laws::idx_after(from, i),
        ) is None
}

/// From avail index `from` on, `at` is the first that names a chain, or `target` where none in
/// front of it does.
pub open spec fn comes_next(
    ram: Map<int, u8>,
    config: QueueConfig,
    from: u16,
    target: u16,
    at: u16,
) -> bool {
    &&& exists|n: int|
        0 <= n <= 65535 && pass_laws::idx_after(from, n) == at && #[trigger] all_rejected(
            ram,
            config,
            from,
            target,
            n,
        )
    &&& at != target ==> chain_named(ram, config, at) is Some
}

/// The chain whose head stands in the avail ring at index `at`, if it is one.
pub open spec fn chain_named(ram: Map<int, u8>, config: QueueConfig, at: u16) -> Option<
    ChainView,
> {
    vqueue::chain_from(
        ram,
        config,
        word16(ram, config.avail_ring_addr + 4 + 2 * (at as int % config.size as int)) as u16,
    )
}

/// Entries of the avail ring are passed over only where they name no chain.
pub proof fn law_only_rejected_are_passed_over(
    ram: Map<int, u8>,
    config: QueueConfig,
    avail: u16,
    target: u16,
)
    ensures
        comes_next(
            ram,
            config,
            avail,
            target,
            vqueue::skip_rejected(ram, config, avail, target),
        ),
    decreases vqueue::idx_distance(avail, target),
{
    let at = vqueue::skip_rejected(ram, config, avail, target);
    vqueue::lemma_skip_rejected(ram, config, avail, target);
    law_rings_stand_in_memory(ram, config, at);
    law_rings_stand_in_memory(ram, config, avail);
    if avail == target || chain_named(ram, config, avail) is Some {
        assert(pass_laws::idx_after(avail, 0) == at);
        assert(all_rejected(ram, config, avail, target, 0));
    } else {
        let next = vqueue::next_idx(avail);
        law_only_rejected_are_passed_over(ram, config, next, target);
        let n = choose|n: int|
            0 <= n <= 65535 && pass_laws::idx_after(next, n) == at && #[trigger] all_rejected(
                ram,
                config,
                next,
                target,
                n,
            );
        lemma_one_rejected_more(ram, config, avail, target, n);
    }
}

proof fn lemma_one_rejected_more(
    ram: Map<int, u8>,
    config: QueueConfig,
    avail: u16,
    target: u16,
    n: int,
)
    requires
        0 <= n <= 65535,
        avail != target,
        chain_named(ram, config, avail) is None,
        all_rejected(ram, config, vqueue::next_idx(avail), target, n),
    ensures
        n + 1 <= 65535,
        all_rejected(ram, config, avail, target, n + 1),
        pass_laws::idx_after(avail, n + 1) == pass_laws::idx_after(vqueue::next_idx(avail), n),
{
    let next = vqueue::next_idx(avail);
    let d = vqueue::idx_distance(next, target) as int;
    assert(pass_laws::idx_after(next, d) == target);
    assert(d < 65535);
    assert forall|i: int| 0 <= i < n + 1 implies #[trigger] pass_laws::idx_after(avail, i) != target
        && chain_named(ram, config, pass_laws::idx_after(avail, i)) is None by {
        if i > 0 {
            assert(pass_laws::idx_after(avail, i) == pass_laws::idx_after(next, i - 1));
        } else {
            assert(pass_laws::idx_after(avail, 0) == avail);
        }
    }
}

/// A pass starts where the processor of the queue stood, at zero where there was none yet.
pub open spec fn starts_at(
    p: Option<VirtQueueProcessor>,
    ram: Map<int, u8>,
    marks: Option<Seq<(u64, u64)>>,
    s: PassState,
) -> bool {
    &&& s.avail == (match p {
        Some(p) => p.last_avail_idx,
        None => 0u16,
    })
    &&& s.used == (match p {
        Some(p) => p.last_used_idx,
        None => 0u16,
    })
    &&& s.done == 0
    &&& s.mem.ram == ram
    &&& marks matches Some(d) ==> s.mem.marks == d
}

/// A pass that ended in `e` is over: the guest sees the index of the used ring, no other memory
/// changed, what changed is on the record, and the processor stands where the pass ended.
pub open spec fn is_over(
    config: QueueConfig,
    e: PassState,
    p: Option<VirtQueueProcessor>,
    ram: Map<int, u8>,
    marks: Option<Seq<(u64, u64)>>,
) -> bool {
    &&& p matches Some(p) && p.last_avail_idx == e.avail && p.last_used_idx == e.used && p.config
        == config
    &&& ram.dom() == e.mem.ram.dom()
    &&& guest_memory::is_mapped(e.mem.ram, config.used_ring_addr + 2, 2) ==> word16(
        ram,
        config.used_ring_addr + 2,
    ) == e.used
    &&& forall|a: int|
        e.mem.ram.dom().contains(a) && !(config.used_ring_addr + 2 <= a < config.used_ring_addr
            + 4) ==> #[trigger] ram[a] == e.mem.ram[a]
    &&& guest_memory::is_mapped(e.mem.ram, config.used_ring_addr + 2, 2) ==> (marks matches Some(
        d,
    ) ==> places::recorded(e.mem, MemState { ram, marks: d }))
}

/// Publishing the index of the used ring is all that is left to do behind a pass.
pub proof fn lemma_is_over(config: QueueConfig, e: PassState, m: MemState)
    requires
        m == vqueue::used_idx_stored(e.mem, config, e.used),
    ensures
        m.ram.dom() == e.mem.ram.dom(),
        guest_memory::is_mapped(e.mem.ram, config.used_ring_addr + 2, 2) ==> word16(
            m.ram,
            config.used_ring_addr + 2,
        ) == e.used && places::recorded(e.mem, m),
        forall|a: int|
            e.mem.ram.dom().contains(a) && !(config.used_ring_addr + 2 <= a
                < config.used_ring_addr + 4) ==> #[trigger] m.ram[a] == e.mem.ram[a],
{
    let at = config.used_ring_addr + 2;
    let b = bytes::le16_bytes(e.used as int);
    guest_memory::lemma_ram_write_dom(e.mem.ram, at, b);
    if guest_memory::is_mapped(e.mem.ram, at, 2) {
        assert(e.mem.ram.dom().contains(at) && e.mem.ram.dom().contains(at + 1));
        assert(m.ram[at] == b[0] && m.ram[at + 1] == b[1]);
        bytes::lemma_le16_round_trip(e.used);
        places::lemma_store_recorded(e.mem, at, b);
    }
}

/// One turn of a pass: the state in which a chain was reached, the chain and its head, and what
/// taking it up left and answered.
pub struct Turn<W> {
    pub at: Pass<W>,
    pub head: u16,
    pub chain: ChainView,
    pub work: W,
    pub mem: MemState,
    pub answer: Option<u32>,
}

/// The turn takes up the chain that comes next from `from` on, with nothing else changed.
pub open spec fn reaches<W>(config: QueueConfig, target: u16, from: Pass<W>, turn: Turn<W>) -> bool {
    let ram = from.pass.mem.ram;
    let at = turn.at.pass.avail;
    &&& turn.at.work == from.work
    &&& turn.at.pass.mem == from.pass.mem
    &&& turn.at.pass.used == from.pass.used
    &&& turn.at.pass.done == from.pass.done
    &&& at != target
    &&& comes_next(ram, config, from.pass.avail, target, at)
    &&& turn.head == word16(ram, config.avail_ring_addr + 4 + 2 * (at as int % config.size as int))
    &&& vqueue::chain_from(ram, config, turn.head) == Some(turn.chain)
}

/// The chain of a turn was completed: both rings went on by one, and the used ring has an entry
/// with the chain's head and the length of the answer. No other memory changed, and the entry is
/// on the record.
pub open spec fn completes<W>(config: QueueConfig, turn: Turn<W>, next: Pass<W>) -> bool {
    let entry = config.used_ring_addr + 4 + 8 * (turn.at.pass.used as int % config.size as int);
    let (before, after) = (turn.mem, next.pass.mem);
    &&& turn.answer is Some
    &&& next.work == turn.work
    &&& next.pass.avail == (turn.at.pass.avail + 1) % 65536
    &&& next.pass.used == (turn.at.pass.used + 1) % 65536
    &&& next.pass.done == turn.at.pass.done + 1
    &&& after.ram.dom() == before.ram.dom()
    &&& guest_memory::is_mapped(before.ram, entry, 8) ==> {
        &&& word32(after.ram, entry) == turn.head
        &&& word32(after.ram, entry + 4) == turn.answer->0
        &&& places::recorded(before, after)
    }
    &&& forall|a: int|
        before.ram.dom().contains(a) && !(entry <= a < entry + 8) ==> #[trigger] after.ram[a]
            == before.ram[a]
}

/// A turn was answered with no length: its chain stays where it is.
pub open spec fn leaves_waiting<W>(turn: Turn<W>, next: Pass<W>) -> bool {
    &&& turn.answer is None
    &&& next.work == turn.work
    &&& next.pass.mem == turn.mem
    &&& next.pass.avail == turn.at.pass.avail
    &&& next.pass.used == turn.at.pass.used
    &&& next.pass.done == turn.at.pass.done
}

/// The turns lead from one state to the next, as `step` allows, and all but the last complete
/// their chains.
pub open spec fn in_turn<W>(
    step: ChainStep<W>,
    config: QueueConfig,
    target: u16,
    states: Seq<Pass<W>>,
    turns: Seq<Turn<W>>,
) -> bool {
    &&& states.len() == turns.len() + 1
    &&& forall|i: int|
        0 <= i < turns.len() ==> {
            let turn = #[trigger] turns[i];
            &&& reaches(config, target, states[i], turn)
            &&& step(
                turn.at.work,
                turn.at.pass.mem,
                turn.chain,
                turn.work,
                turn.mem,
                turn.answer,
            )
            &&& completes(config, turn, states[i + 1]) || i == turns.len() - 1 && leaves_waiting(
                turn,
                states[i + 1],
            )
        }
}

/// A pass ends where a chain was left waiting, or at the target with no chain left.
pub open spec fn ends<W>(
    config: QueueConfig,
    target: u16,
    states: Seq<Pass<W>>,
    turns: Seq<Turn<W>>,
    t: Pass<W>,
) -> bool {
    let last = states.last();
    if turns.len() > 0 && turns.last().answer is None {
        t == last
    } else {
        &&& t.work == last.work
        &&& t.pass.mem == last.pass.mem
        &&& t.pass.used == last.pass.used
        &&& t.pass.done == last.pass.done
        &&& t.pass.avail == target
        &&& comes_next(last.pass.mem.ram, config, last.pass.avail, target, target)
    }
}

proof fn lemma_completes<W>(config: QueueConfig, turn: Turn<W>, len: u32, next: Pass<W>)
    requires
        turn.answer == Some(len),
        next == turn.at.worked(turn.work, turn.mem).completed(config, turn.head, len),
        config.size > 0,
    ensures
        completes(config, turn, next),
{
    let at = vqueue::used_slot(config, turn.at.pass.used);
    let entry = bytes::le32_bytes(turn.head as int) + bytes::le32_bytes(len as int);
    guest_memory::lemma_ram_write_dom(turn.mem.ram, at, entry);
    let after = next.pass.mem.ram;
    if guest_memory::is_mapped(turn.mem.ram, at, 8) {
        assert(forall|k: int|
            0 <= k < 8 ==> turn.mem.ram.dom().contains(at + k) && after[at + k] == #[trigger] entry[k]);
        bytes::lemma_le32_round_trip(turn.head as u32);
        bytes::lemma_le32_round_trip(len);
        let h = bytes::le32_bytes(turn.head as int);
        let l = bytes::le32_bytes(len as int);
        assert(entry[0] == h[0] && entry[1] == h[1] && entry[2] == h[2] && entry[3] == h[3]);
        assert(entry[4] == l[0] && entry[5] == l[1] && entry[6] == l[2] && entry[7] == l[3]);
        assert(0 <= turn.at.pass.used as int % config.size as int) by (nonlinear_arith)
            requires
                config.size > 0,
        ;
        assert(turn.mem.ram.dom().contains(at));
        places::lemma_store_recorded(turn.mem, at, entry);
    }
}

/// A pass takes up one chain after the other, in the order in which the guest made them available
/// and without leaving one out. Each is taken up as `step` allows, from the state that the one
/// before it left, and entered in the used ring with the length that it was answered with. The
/// pass ends behind the last chain, or in front of the first that is not answered.
pub proof fn law_pass_goes_in_turn<W>(
    step: ChainStep<W>,
    config: QueueConfig,
    target: u16,
    s: Pass<W>,
    t: Pass<W>,
) -> (r: (Seq<Pass<W>>, Seq<Turn<W>>))
    requires
        config.size > 0,
        vqueue::device_pass(step, config, target, s, t),
    ensures
        r.0.len() > 0 && r.0[0] == s,
        in_turn(step, config, target, r.0, r.1),
        ends(config, target, r.0, r.1, t),
    decreases vqueue::idx_distance(s.pass.avail, target),
{
    let k = s.skipped(config, target);
    vqueue::lemma_skip_rejected(s.pass.mem.ram, config, s.pass.avail, target);
    law_only_rejected_are_passed_over(s.pass.mem.ram, config, s.pass.avail, target);
    if k.pass.avail == target {
        (seq![s], Seq::empty())
    } else {
        let head = vqueue::avail_head(k.pass.mem.ram, config, k.pass.avail);
        law_rings_stand_in_memory(k.pass.mem.ram, config, k.pass.avail);
        let chain = vqueue::chain_from(k.pass.mem.ram, config, head)->0;
        let (w, m, answer) = choose|w: W, m: MemState, answer: Option<u32>|
            #[trigger] step(k.work, k.pass.mem, chain, w, m, answer) && match answer {
                None => t == k.worked(w, m),
                Some(len) => vqueue::device_pass(
                    step,
                    config,
                    target,
                    k.worked(w, m).completed(config, head, len),
                    t,
                ),
            };
        let turn = Turn { at: k, head, chain, work: w, mem: m, answer };
        assert(reaches(config, target, s, turn));
        match answer {
            None => {
                let states = seq![s, t];
                let turns = seq![turn];
                assert(leaves_waiting(turn, t));
                (states, turns)
            },
            Some(len) => {
                let next = k.worked(w, m).completed(config, head, len);
                lemma_completes(config, turn, len, next);
                let r = law_pass_goes_in_turn(step, config, target, next, t);
                let states = seq![s] + r.0;
                let turns = seq![turn] + r.1;
                assert forall|i: int| 0 <= i < turns.len() implies {
                    let turn = #[trigger] turns[i];
                    &&& reaches(config, target, states[i], turn)
                    &&& step(
                        turn.at.work,
                        turn.at.pass.mem,
                        turn.chain,
                        turn.work,
                        turn.mem,
                        turn.answer,
                    )
                    &&& completes(config, turn, states[i + 1]) || i == turns.len() - 1
                        && leaves_waiting(turn, states[i + 1])
                } by {
                    if i > 0 {
                        assert(turns[i] == r.1[i - 1]);
                        assert(states[i] == r.0[i - 1]);
                        assert(states[i + 1] == r.0[i]);
                    } else {
                        assert(states[1] == r.0[0]);
                    }
                }
                assert(states.last() == r.0.last());
                if r.1.len() > 0 {
                    assert(turns.last() == r.1.last());
                }
                (states, turns)
            },
        }
    }
}

} // verus!
