//! Virtqueue processing: walks the guest's descriptor rings and hands each request to the
//! device.
use crate::bytes::{self, push_le16, push_le32, push_le64, read_le16, read_le32, read_le64};
use crate::dirty::SoftwareDirtyBitmap;
use crate::guest_memory::{self, check_range, read_bytes};
use crate::virtio::buffers::{self, read_descs, write_descs, write_slice_mem};
use vm_memory::GuestMemoryMmap;
use vstd::prelude::*;

pub mod desc_flags;
pub mod handler_laws;
pub mod pass_laws;
pub mod ring_laws;
pub mod trace_laws;

verus! {

/// Maximum virtio-mmio queue size this VMM offers to guests.
pub const MAX_QUEUE_SIZE: u16 = 256;

/// Maximum length of one descriptor's buffer (1 MiB). A guest cannot make the host allocate
/// more for one descriptor.
pub const MAX_DESC_LEN: u32 = 0x10_0000;

/// Maximum total bytes across all descriptors of a single chain (4 MiB).
pub const MAX_CHAIN_BYTES: usize = 0x40_0000;

/// The powers of two that fit in 16 bits.
pub open spec fn is_power_of_two(x: int) -> bool {
    ||| x == 1
    ||| x == 2
    ||| x == 4
    ||| x == 8
    ||| x == 16
    ||| x == 32
    ||| x == 64
    ||| x == 128
    ||| x == 256
    ||| x == 512
    ||| x == 1024
    ||| x == 2048
    ||| x == 4096
    ||| x == 8192
    ||| x == 16384
    ||| x == 32768
}

/// A queue size is a power of two up to the cap that the device advertised.
pub open spec fn valid_queue_size(size: int, max_size: int) -> bool {
    is_power_of_two(size) && size <= max_size
}

/// Validate a guest-selected QUEUE_NUM against the device-advertised cap.
pub fn is_valid_queue_size(size: u16, max_size: u16) -> (ok: bool)
    ensures
        ok == valid_queue_size(size as int, max_size as int),
{
    if size == 0 || size > max_size {
        return false;
    }
    assert((size & ((size - 1) as u16) == 0u16) == (size == 1 || size == 2 || size == 4 || size == 8
        || size == 16 || size == 32 || size == 64 || size == 128 || size == 256 || size == 512
        || size == 1024 || size == 2048 || size == 4096 || size == 8192 || size == 16384 || size
        == 32768)) by (bit_vector)
        requires
            size != 0,
    ;
    size & (size - 1) == 0
}

/// The virtio descriptor (16 bytes, from virtio 1.x section 2.6.5).
#[derive(Debug, Copy, Clone, PartialEq, Eq, Structural)]
pub struct Descriptor {
    pub addr: u64,
    pub len: u32,
    pub flags: u16,
    pub next: u16,
}

/// The avail ring header (virtio 1.x section 2.7.6).
#[derive(Debug, Copy, Clone, PartialEq, Eq, Structural)]
pub struct AvailRing {
    pub flags: u16,
    pub idx: u16,
}

/// The used ring header (virtio 1.x section 2.7.8).
#[derive(Debug, Copy, Clone, PartialEq, Eq, Structural)]
pub struct UsedRing {
    pub flags: u16,
    pub idx: u16,
}

/// A used ring entry.
#[derive(Debug, Copy, Clone, PartialEq, Eq, Structural)]
pub struct UsedElem {
    pub id: u32,
    pub len: u32,
}

/// The configuration the guest writes to set up a virtqueue.
#[derive(Debug, Copy, Clone, PartialEq, Eq, Structural)]
pub struct QueueConfig {
    /// Size of the queue (power of 2, max 256 for virtio-mmio).
    pub size: u16,
    /// Guest physical address of the descriptor table.
    pub desc_table_addr: u64,
    /// Guest physical address of the avail ring.
    pub avail_ring_addr: u64,
    /// Guest physical address of the used ring.
    pub used_ring_addr: u64,
    /// Whether the guest has enabled the queue (DRIVER_OK + queue_ready).
    pub ready: bool,
}

impl Default for QueueConfig {
    fn default() -> (c: Self)
        ensures
            c == (QueueConfig {
                size: 0,
                desc_table_addr: 0,
                avail_ring_addr: 0,
                used_ring_addr: 0,
                ready: false,
            }),
    {
        QueueConfig {
            size: 0,
            desc_table_addr: 0,
            avail_ring_addr: 0,
            used_ring_addr: 0,
            ready: false,
        }
    }
}

/// The buffers of one descriptor chain, parted by who may write them.
pub struct DescriptorChain {
    pub readable: Vec<(u64, u32)>,
    pub writable: Vec<(u64, u32)>,
    pub len: u32,
}

/// What a [`DescriptorChain`] holds.
#[verifier::ext_equal]
pub struct ChainView {
    pub readable: Seq<(u64, u32)>,
    pub writable: Seq<(u64, u32)>,
    pub len: nat,
}

impl View for DescriptorChain {
    type V = ChainView;

    open spec fn view(&self) -> ChainView {
        ChainView { readable: self.readable@, writable: self.writable@, len: self.len as nat }
    }
}

impl Descriptor {
    /// The descriptor that 16 bytes encode.
    pub open spec fn decoded(b: Seq<u8>) -> Descriptor {
        Descriptor {
            addr: bytes::le64_at(b, 0) as u64,
            len: bytes::le32_at(b, 8) as u32,
            flags: bytes::le16_at(b, 12) as u16,
            next: bytes::le16_at(b, 14) as u16,
        }
    }

    /// The 16 bytes of the descriptor.
    pub open spec fn encoded(self) -> Seq<u8> {
        bytes::le64_bytes(self.addr as int) + bytes::le32_bytes(self.len as int)
            + bytes::le16_bytes(self.flags as int) + bytes::le16_bytes(self.next as int)
    }

    /// The 16 bytes of the descriptor.
    pub fn to_bytes(self) -> (b: Vec<u8>)
        ensures
            b@ == self.encoded(),
    {
        let mut b: Vec<u8> = Vec::new();
        push_le64(&mut b, self.addr);
        assert(b@ =~= bytes::le64_bytes(self.addr as int));
        push_le32(&mut b, self.len);
        push_le16(&mut b, self.flags);
        push_le16(&mut b, self.next);
        b
    }

    /// Decodes the 16 bytes of a descriptor.
    pub fn from_bytes(b: &[u8]) -> (d: Descriptor)
        requires
            b@.len() == 16,
        ensures
            d == Descriptor::decoded(b@),
    {
        let _n: usize = b.len();
        Descriptor {
            addr: read_le64(b, 0),
            len: read_le32(b, 8),
            flags: read_le16(b, 12),
            next: read_le16(b, 14),
        }
    }
}

/// A descriptor that was written is read back as it was.
pub proof fn law_descriptor_round_trip(d: Descriptor)
    ensures
        d.encoded().len() == 16,
        Descriptor::decoded(d.encoded()) == d,
{
    let e = d.encoded();
    assert(e.subrange(0, 8) =~= bytes::le64_bytes(d.addr as int));
    assert(e.subrange(8, 12) =~= bytes::le32_bytes(d.len as int));
    assert(e.subrange(12, 14) =~= bytes::le16_bytes(d.flags as int));
    assert(e.subrange(14, 16) =~= bytes::le16_bytes(d.next as int));
    bytes::lemma_le64_found(e, 0, d.addr);
    bytes::lemma_le32_found(e, 8, d.len);
    bytes::lemma_le16_found(e, 12, d.flags);
    bytes::lemma_le16_found(e, 14, d.next);
}

impl AvailRing {
    /// Decodes the header of an avail ring.
    pub fn from_bytes(b: &[u8]) -> (r: AvailRing)
        requires
            b@.len() == 4,
        ensures
            r.flags == bytes::le16_at(b@, 0),
            r.idx == bytes::le16_at(b@, 2),
    {
        let _n: usize = b.len();
        AvailRing { flags: read_le16(b, 0), idx: read_le16(b, 2) }
    }

    /// The bytes of the header.
    pub fn to_bytes(self) -> (b: Vec<u8>)
        ensures
            b@ == bytes::le16_bytes(self.flags as int) + bytes::le16_bytes(self.idx as int),
    {
        let mut b: Vec<u8> = Vec::new();
        push_le16(&mut b, self.flags);
        push_le16(&mut b, self.idx);
        assert(b@ =~= bytes::le16_bytes(self.flags as int) + bytes::le16_bytes(self.idx as int));
        b
    }
}

impl UsedElem {
    /// The bytes of the entry.
    pub fn to_bytes(self) -> (b: Vec<u8>)
        ensures
            b@ == bytes::le32_bytes(self.id as int) + bytes::le32_bytes(self.len as int),
    {
        let mut b: Vec<u8> = Vec::new();
        push_le32(&mut b, self.id);
        push_le32(&mut b, self.len);
        assert(b@ =~= bytes::le32_bytes(self.id as int) + bytes::le32_bytes(self.len as int));
        b
    }

    /// Decodes an entry.
    pub fn from_bytes(b: &[u8]) -> (e: UsedElem)
        requires
            b@.len() == 8,
        ensures
            e.id == bytes::le32_at(b@, 0),
            e.len == bytes::le32_at(b@, 4),
    {
        let _n: usize = b.len();
        UsedElem { id: read_le32(b, 0), len: read_le32(b, 4) }
    }
}

impl UsedRing {
    /// Decodes the header of a used ring.
    pub fn from_bytes(b: &[u8]) -> (r: UsedRing)
        requires
            b@.len() == 4,
        ensures
            r.flags == bytes::le16_at(b@, 0),
            r.idx == bytes::le16_at(b@, 2),
    {
        let _n: usize = b.len();
        UsedRing { flags: read_le16(b, 0), idx: read_le16(b, 2) }
    }
}

/// Descriptor `idx` of the queue's table.
pub open spec fn desc_at(ram: Map<int, u8>, config: QueueConfig, idx: u16) -> Descriptor {
    Descriptor::decoded(guest_memory::ram_bytes(ram, config.desc_table_addr + 16 * idx, 16))
}

/// A descriptor that may stand in a chain: it lies in the table, is not indirect, and its
/// buffer is short enough and mapped.
pub open spec fn desc_acceptable(ram: Map<int, u8>, config: QueueConfig, idx: u16) -> bool {
    let d = desc_at(ram, config, idx);
    &&& idx < config.size
    &&& d.flags & desc_flags::INDIRECT == 0
    &&& d.len <= MAX_DESC_LEN
    &&& d.len == 0 || guest_memory::is_mapped(ram, d.addr as int, d.len as int)
}

/// Descriptor `path[i]` names `path[i + 1]` as the one that follows.
pub open spec fn links_on(
    ram: Map<int, u8>,
    config: QueueConfig,
    path: Seq<u16>,
    i: int,
) -> bool {
    let d = desc_at(ram, config, path[i]);
    d.flags & desc_flags::NEXT != 0 && d.next == path[i + 1]
}

/// The number of bytes of the buffers along `path`.
pub open spec fn path_bytes(ram: Map<int, u8>, config: QueueConfig, path: Seq<u16>) -> nat
    decreases path.len(),
{
    if path.len() == 0 {
        0
    } else {
        path_bytes(ram, config, path.drop_last()) + desc_at(ram, config, path.last()).len as nat
    }
}

/// The buffers along `path` that the device may write, or those that it may not.
pub open spec fn path_buffers(
    ram: Map<int, u8>,
    config: QueueConfig,
    path: Seq<u16>,
    writable: bool,
) -> Seq<(u64, u32)>
    decreases path.len(),
{
    if path.len() == 0 {
        Seq::empty()
    } else {
        let d = desc_at(ram, config, path.last());
        let front = path_buffers(ram, config, path.drop_last(), writable);
        if (d.flags & desc_flags::WRITE != 0) == writable {
            front.push((d.addr, d.len))
        } else {
            front
        }
    }
}

/// `path` lists, without repetition, the acceptable descriptors of a whole chain from `head`
/// to the one without a successor, and their buffers stay within the chain's byte limit.
pub open spec fn is_chain_path(
    ram: Map<int, u8>,
    config: QueueConfig,
    head: u16,
    path: Seq<u16>,
) -> bool {
    &&& path.len() > 0
    &&& path[0] == head
    &&& path.no_duplicates()
    &&& forall|i: int| 0 <= i < path.len() ==> desc_acceptable(ram, config, #[trigger] path[i])
    &&& forall|i: int| 0 <= i < path.len() - 1 ==> #[trigger] links_on(ram, config, path, i)
    &&& desc_at(ram, config, path.last()).flags & desc_flags::NEXT == 0
    &&& path_bytes(ram, config, path) <= MAX_CHAIN_BYTES
}

/// The chain that starts at descriptor `head`, if the table holds one there.
pub open spec fn chain_from(ram: Map<int, u8>, config: QueueConfig, head: u16) -> Option<
    ChainView,
> {
    if exists|path: Seq<u16>| is_chain_path(ram, config, head, path) {
        let path = choose|path: Seq<u16>| is_chain_path(ram, config, head, path);
        Some(path_chain(ram, config, path))
    } else {
        None
    }
}

/// The buffers along a path, parted by who may write them.
pub open spec fn path_chain(ram: Map<int, u8>, config: QueueConfig, path: Seq<u16>) -> ChainView {
    ChainView {
        readable: path_buffers(ram, config, path, false),
        writable: path_buffers(ram, config, path, true),
        len: path.len(),
    }
}

/// The first descriptors of a chain, all of which name a successor; `next` is the successor of
/// the last one, or `head` where there is none yet.
spec fn is_path_front(
    ram: Map<int, u8>,
    config: QueueConfig,
    head: u16,
    path: Seq<u16>,
    next: u16,
) -> bool {
    &&& path.no_duplicates()
    &&& forall|i: int| 0 <= i < path.len() ==> desc_acceptable(ram, config, #[trigger] path[i])
    &&& forall|i: int| 0 <= i < path.len() - 1 ==> #[trigger] links_on(ram, config, path, i)
    &&& path.len() == 0 ==> next == head
    &&& path.len() > 0 ==> path[0] == head && links_on(
        ram,
        config,
        path.push(next),
        path.len() - 1,
    )
}

/// A chain that exists goes on from every front of it.
proof fn lemma_front_of_chain(
    ram: Map<int, u8>,
    config: QueueConfig,
    head: u16,
    front: Seq<u16>,
    next: u16,
    path: Seq<u16>,
)
    requires
        is_path_front(ram, config, head, front, next),
        is_chain_path(ram, config, head, path),
    ensures
        front.len() < path.len(),
        path.take(front.len() as int) == front,
        path[front.len() as int] == next,
{
    lemma_front_agrees(ram, config, head, front, next, path, front.len() as int);
    assert(path.take(front.len() as int) =~= front);
    if front.len() > 0 {
        let k = front.len() - 1;
        assert(links_on(ram, config, front.push(next), k));
        assert(front.push(next)[k] == front[k]);
        assert(front.push(next)[k + 1] == next);
        assert(links_on(ram, config, path, k));
    }
}

proof fn lemma_front_agrees(
    ram: Map<int, u8>,
    config: QueueConfig,
    head: u16,
    front: Seq<u16>,
    next: u16,
    path: Seq<u16>,
    k: int,
)
    requires
        is_path_front(ram, config, head, front, next),
        is_chain_path(ram, config, head, path),
        0 <= k <= front.len(),
    ensures
        k < path.len(),
        forall|i: int| 0 <= i < k ==> path[i] == front[i],
    decreases k,
{
    if k > 0 {
        lemma_front_agrees(ram, config, head, front, next, path, k - 1);
        let j = k - 1;
        if j > 0 {
            assert(links_on(ram, config, front, j - 1));
            assert(links_on(ram, config, path, j - 1));
        }
        assert(path[j] == front[j]);
        // The descriptor names a successor, so the path does not end with it.
        if j == front.len() - 1 {
            assert(links_on(ram, config, front.push(next), j));
            assert(front.push(next)[j] == front[j]);
        } else {
            assert(links_on(ram, config, front, j));
        }
        if path.len() == k {
            assert(path.last() == path[j]);
        }
    }
}

/// A chain has only one path.
proof fn lemma_chain_path_unique(
    ram: Map<int, u8>,
    config: QueueConfig,
    head: u16,
    a: Seq<u16>,
    b: Seq<u16>,
)
    requires
        is_chain_path(ram, config, head, a),
        is_chain_path(ram, config, head, b),
    ensures
        a == b,
{
    let front = a.drop_last();
    let next = a.last();
    if front.len() > 0 {
        assert(front.push(next) =~= a);
        assert(links_on(ram, config, a, front.len() - 1));
    }
    assert(is_path_front(ram, config, head, front, next)) by {
        assert forall|i: int| 0 <= i < front.len() - 1 implies #[trigger] links_on(
            ram,
            config,
            front,
            i,
        ) by {
            assert(links_on(ram, config, a, i));
        }
    }
    lemma_front_of_chain(ram, config, head, front, next, b);
    if b.len() > a.len() {
        assert(links_on(ram, config, b, a.len() - 1));
    }
    assert(a =~= b) by {
        assert forall|i: int| 0 <= i < a.len() implies a[i] == b[i] by {
            if i < front.len() {
                assert(b.take(front.len() as int)[i] == front[i]);
            }
        }
    }
}

proof fn lemma_path_bytes_take(ram: Map<int, u8>, config: QueueConfig, path: Seq<u16>, k: int)
    requires
        0 <= k <= path.len(),
    ensures
        path_bytes(ram, config, path.take(k)) <= path_bytes(ram, config, path),
    decreases path.len(),
{
    if k < path.len() {
        assert(path.drop_last().take(k) =~= path.take(k));
        lemma_path_bytes_take(ram, config, path.drop_last(), k);
    } else {
        assert(path.take(k) =~= path);
    }
}

/// Distinct indices below `n` are at most `n` many.
proof fn lemma_distinct_below(path: Seq<u16>, n: u16)
    requires
        path.no_duplicates(),
        forall|i: int| 0 <= i < path.len() ==> #[trigger] path[i] < n,
    ensures
        path.len() <= n,
{
    let ints = path.map_values(|x: u16| x as int);
    assert(ints.no_duplicates());
    ints.unique_seq_to_set();
    let range = vstd::set_lib::set_int_range(0, n as int);
    vstd::set_lib::lemma_int_range(0, n as int);
    assert(ints.to_set().subset_of(range)) by {
        assert forall|x: int| ints.to_set().contains(x) implies range.contains(x) by {
            let i = choose|i: int| 0 <= i < ints.len() && ints[i] == x;
            assert(path[i] < n);
        }
    }
    vstd::set_lib::lemma_len_subset(ints.to_set(), range);
}

/// The buffers of a chain are mapped, and their bytes stay within the chain's limit.
pub proof fn lemma_chain_buffers(ram: Map<int, u8>, config: QueueConfig, head: u16)
    ensures
        chain_from(ram, config, head) matches Some(c) ==> {
            &&& buffers::all_mapped(ram, c.readable)
            &&& buffers::all_mapped(ram, c.writable)
            &&& buffers::total_len(c.readable) + buffers::total_len(c.writable) <= MAX_CHAIN_BYTES
            &&& c.readable.len() + c.writable.len() == c.len
            &&& 1 <= c.len <= config.size
        },
{
    if exists|path: Seq<u16>| is_chain_path(ram, config, head, path) {
        let path = choose|path: Seq<u16>| is_chain_path(ram, config, head, path);
        lemma_path_buffers(ram, config, path);
        lemma_distinct_below(path, config.size);
    }
}

proof fn lemma_path_buffers(ram: Map<int, u8>, config: QueueConfig, path: Seq<u16>)
    requires
        forall|i: int| 0 <= i < path.len() ==> desc_acceptable(ram, config, #[trigger] path[i]),
    ensures
        buffers::all_mapped(ram, path_buffers(ram, config, path, false)),
        buffers::all_mapped(ram, path_buffers(ram, config, path, true)),
        buffers::total_len(path_buffers(ram, config, path, false)) + buffers::total_len(
            path_buffers(ram, config, path, true),
        ) == path_bytes(ram, config, path),
        path_buffers(ram, config, path, false).len() + path_buffers(ram, config, path, true).len()
            == path.len(),
    decreases path.len(),
{
    if path.len() > 0 {
        let front = path.drop_last();
        assert forall|i: int| 0 <= i < front.len() implies desc_acceptable(
            ram,
            config,
            #[trigger] front[i],
        ) by {
            assert(front[i] == path[i]);
        }
        lemma_path_buffers(ram, config, front);
        let d = desc_at(ram, config, path.last());
        let w = d.flags & desc_flags::WRITE != 0;
        let old_bufs = path_buffers(ram, config, front, w);
        let new_bufs = path_buffers(ram, config, path, w);
        assert(desc_acceptable(ram, config, path[path.len() - 1]));
        assert(new_bufs.drop_last() =~= old_bufs);
        assert(buffers::all_mapped(ram, new_bufs)) by {
            assert forall|i: int| 0 <= i < new_bufs.len() implies (#[trigger] new_bufs[i]).1 == 0
                || guest_memory::is_mapped(ram, new_bufs[i].0 as int, new_bufs[i].1 as int) by {
                if i < old_bufs.len() {
                    assert(new_bufs[i] == old_bufs[i]);
                }
            }
        }
    }
}

/// A virtqueue processor. Walks the avail ring, processes descriptor chains, and updates the
/// used ring.
pub struct VirtQueueProcessor {
    pub config: QueueConfig,
    pub last_avail_idx: u16,
    pub last_used_idx: u16,
}

/// The positions of a [`VirtQueueProcessor`] in its rings.
#[derive(Debug, Copy, Clone, PartialEq, Eq, Structural)]
pub struct VirtQueueProcessorState {
    pub last_avail_idx: u16,
    pub last_used_idx: u16,
}

impl Default for VirtQueueProcessorState {
    fn default() -> (s: Self)
        ensures
            s == (VirtQueueProcessorState { last_avail_idx: 0, last_used_idx: 0 }),
    {
        VirtQueueProcessorState { last_avail_idx: 0, last_used_idx: 0 }
    }
}

/// The queue is enabled, has a valid size, and its three areas are mapped.
pub open spec fn queue_usable(ram: Map<int, u8>, config: QueueConfig) -> bool {
    &&& config.ready
    &&& valid_queue_size(config.size as int, MAX_QUEUE_SIZE as int)
    &&& guest_memory::is_mapped(ram, config.desc_table_addr as int, 16 * config.size)
    &&& guest_memory::is_mapped(ram, config.avail_ring_addr as int, 4 + 2 * config.size)
    &&& guest_memory::is_mapped(ram, config.used_ring_addr as int, 4 + 8 * config.size)
}

/// The index up to which the guest has made chains available.
pub open spec fn avail_ring_idx(ram: Map<int, u8>, config: QueueConfig) -> u16 {
    bytes::le16_at(guest_memory::ram_bytes(ram, config.avail_ring_addr as int, 4), 2) as u16
}

/// The index of the used ring, as the guest sees it.
pub open spec fn used_ring_idx(ram: Map<int, u8>, config: QueueConfig) -> u16 {
    bytes::le16_at(guest_memory::ram_bytes(ram, config.used_ring_addr as int, 4), 2) as u16
}

/// The head descriptor in the avail ring's slot for index `avail`.
pub open spec fn avail_head(ram: Map<int, u8>, config: QueueConfig, avail: u16) -> u16 {
    bytes::le16_at(
        guest_memory::ram_bytes(
            ram,
            config.avail_ring_addr + 4 + 2 * (avail as int % config.size as int),
            2,
        ),
        0,
    ) as u16
}

/// The ring index that follows `i`.
pub open spec fn next_idx(i: u16) -> u16 {
    if i == 0xffff {
        0
    } else {
        (i + 1) as u16
    }
}

/// How many steps lead from ring index `from` to `to`.
pub open spec fn idx_distance(from: u16, to: u16) -> nat {
    if from <= to {
        (to - from) as nat
    } else {
        (0x1_0000 + to - from) as nat
    }
}

/// The first index from `avail` on whose slot holds a chain, or `target` where there is none.
pub open spec fn skip_rejected(
    ram: Map<int, u8>,
    config: QueueConfig,
    avail: u16,
    target: u16,
) -> u16
    decreases idx_distance(avail, target),
{
    if avail == target || chain_from(ram, config, avail_head(ram, config, avail)) is Some {
        avail
    } else {
        skip_rejected(ram, config, next_idx(avail), target)
    }
}

/// The address of the used ring's slot for index `used`.
pub open spec fn used_slot(config: QueueConfig, used: u16) -> int {
    config.used_ring_addr + 4 + 8 * (used as int % config.size as int)
}

/// Memory after the entry for a finished chain was stored in the used ring.
pub open spec fn used_entry_stored(
    m: buffers::MemState,
    config: QueueConfig,
    used: u16,
    head: u16,
    len: u32,
) -> buffers::MemState {
    m.store(used_slot(config, used), bytes::le32_bytes(head as int) + bytes::le32_bytes(len as int))
}

/// Memory after the used ring's index was published.
pub open spec fn used_idx_stored(
    m: buffers::MemState,
    config: QueueConfig,
    used: u16,
) -> buffers::MemState {
    m.store(config.used_ring_addr + 2, bytes::le16_bytes(used as int))
}

/// The guest sees the index that was published.
pub proof fn lemma_published(m: buffers::MemState, config: QueueConfig, used: u16)
    requires
        queue_usable(m.ram, config),
    ensures
        used_ring_idx(used_idx_stored(m, config, used).ram, config) == used,
{
    let stored = used_idx_stored(m, config, used);
    let b = bytes::le16_bytes(used as int);
    let at = config.used_ring_addr as int;
    assert(m.ram.dom().contains(at + 2) && m.ram.dom().contains(at + 3));
    assert(stored.ram[at + 2] == b[0]);
    assert(stored.ram[at + 3] == b[1]);
}

/// Storing inside mapped memory keeps a queue usable.
pub proof fn lemma_usable_dom(a: Map<int, u8>, b: Map<int, u8>, config: QueueConfig)
    requires
        a.dom() == b.dom(),
    ensures
        queue_usable(a, config) == queue_usable(b, config),
{
}

impl VirtQueueProcessor {
    pub fn new(config: QueueConfig) -> (p: Self)
        ensures
            p == (VirtQueueProcessor { config, last_avail_idx: 0, last_used_idx: 0 }),
    {
        Self::new_with_indices(config, 0, 0)
    }

    pub fn new_with_indices(
        config: QueueConfig,
        last_avail_idx: u16,
        last_used_idx: u16,
    ) -> (p: Self)
        ensures
            p == (VirtQueueProcessor { config, last_avail_idx, last_used_idx }),
    {
        VirtQueueProcessor { config, last_avail_idx, last_used_idx }
    }

    pub fn from_state(config: QueueConfig, state: VirtQueueProcessorState) -> (p: Self)
        ensures
            p == (VirtQueueProcessor {
                config,
                last_avail_idx: state.last_avail_idx,
                last_used_idx: state.last_used_idx,
            }),
    {
        VirtQueueProcessor {
            config,
            last_avail_idx: state.last_avail_idx,
            last_used_idx: state.last_used_idx,
        }
    }

    pub fn save_state(&self) -> (s: VirtQueueProcessorState)
        ensures
            s.last_avail_idx == self.last_avail_idx,
            s.last_used_idx == self.last_used_idx,
    {
        VirtQueueProcessorState {
            last_avail_idx: self.last_avail_idx,
            last_used_idx: self.last_used_idx,
        }
    }

    /// Update the queue config (called when the guest writes to the queue config registers).
    /// Does NOT reset indices: the processor tracks its position across calls.
    pub fn update_config(&mut self, config: QueueConfig)
        ensures
            *final(self) == (VirtQueueProcessor { config, ..*old(self) }),
    {
        self.config = config;
    }

    /// Get the last used index (for interrupt injection).
    pub fn used_idx(&self) -> (i: u16)
        ensures
            i == self.last_used_idx,
    {
        self.last_used_idx
    }

    pub fn avail_idx(&self) -> (i: u16)
        ensures
            i == self.last_avail_idx,
    {
        self.last_avail_idx
    }

    /// Whether the queue is enabled, validly sized, and mapped as a whole.
    pub fn queue_is_usable(&self, mem: &GuestMemoryMmap) -> (ok: bool)
        ensures
            ok == queue_usable(guest_memory::guest_bytes(*mem), self.config),
    {
        if !self.config.ready || !is_valid_queue_size(self.config.size, MAX_QUEUE_SIZE) {
            return false;
        }
        let size: usize = self.config.size as usize;
        check_range(mem, self.config.desc_table_addr, 16 * size) && check_range(
            mem,
            self.config.avail_ring_addr,
            4 + 2 * size,
        ) && check_range(mem, self.config.used_ring_addr, 4 + 8 * size)
    }

    /// Follows the descriptors from `head_desc_idx` and collects their buffers. Nothing comes
    /// back for a chain that leaves the table, runs in a circle, exceeds a limit, holds an
    /// indirect descriptor, or names unmapped memory.
    pub fn walk_descriptor_chain(&self, mem: &GuestMemoryMmap, head_desc_idx: u16) -> (r: Option<
        DescriptorChain,
    >)
        requires
            queue_usable(guest_memory::guest_bytes(*mem), self.config),
        ensures
            r is Some == chain_from(
                guest_memory::guest_bytes(*mem),
                self.config,
                head_desc_idx,
            ) is Some,
            r matches Some(c) ==> Some(c@) == chain_from(
                guest_memory::guest_bytes(*mem),
                self.config,
                head_desc_idx,
            ),
    {
        let ghost ram = guest_memory::guest_bytes(*mem);
        let ghost config = self.config;
        let size: usize = self.config.size as usize;
        let mut desc_idx: u16 = head_desc_idx;
        let mut readable: Vec<(u64, u32)> = Vec::new();
        let mut writable: Vec<(u64, u32)> = Vec::new();
        let mut visited: Vec<bool> = vec![false; size];
        let mut chain_bytes: usize = 0;
        let mut chain_len: usize = 0;
        let ghost mut path: Seq<u16> = Seq::empty();
        loop
            invariant
                ram == guest_memory::guest_bytes(*mem),
                config == self.config,
                queue_usable(ram, config),
                size == config.size,
                visited@.len() == size,
                forall|j: u16| j < size ==> (#[trigger] visited@[j as int] == path.contains(j)),
                is_path_front(ram, config, head_desc_idx, path, desc_idx),
                chain_len == path.len(),
                chain_len <= size,
                chain_bytes == path_bytes(ram, config, path),
                chain_bytes <= MAX_CHAIN_BYTES,
                readable@ == path_buffers(ram, config, path, false),
                writable@ == path_buffers(ram, config, path, true),
            decreases size - path.len(),
        {
            let ghost next = path.push(desc_idx);
            assert(next.drop_last() =~= path);
            // A chain from the head passes through `desc_idx` next.
            assert forall|q: Seq<u16>|
                #[trigger] is_chain_path(ram, config, head_desc_idx, q) implies {
                &&& q.len() >= next.len()
                &&& q.take(next.len() as int) == next
                &&& q[path.len() as int] == desc_idx
                &&& desc_acceptable(ram, config, desc_idx)
                &&& !path.contains(desc_idx)
                &&& next.len() <= size
                &&& path_bytes(ram, config, next) <= MAX_CHAIN_BYTES
            } by {
                lemma_front_of_chain(ram, config, head_desc_idx, path, desc_idx, q);
                assert(q.take(next.len() as int) =~= next) by {
                    assert forall|i: int| 0 <= i < path.len() implies q[i] == path[i] by {
                        assert(q.take(path.len() as int)[i] == path[i]);
                    }
                }
                if path.contains(desc_idx) {
                    let i = choose|i: int| 0 <= i < path.len() && path[i] == desc_idx;
                    assert(q[i] == q.take(path.len() as int)[i]);
                    assert(q[i] == q[path.len() as int]);
                }
                assert(desc_acceptable(ram, config, q[path.len() as int]));
                lemma_distinct_below(q, config.size);
                lemma_path_bytes_take(ram, config, q, next.len() as int);
            }
            if desc_idx >= self.config.size {
                return None;
            }
            let visited_slot: usize = desc_idx as usize;
            if visited[visited_slot] {
                assert(path.contains(desc_idx));
                return None;
            }
            if chain_len >= size {
                return None;
            }
            visited.set(visited_slot, true);

            let desc_addr: u64 = self.config.desc_table_addr + 16 * (desc_idx as u64);
            let buf = match read_bytes(mem, desc_addr, 16) {
                Some(b) => b,
                None => {
                    assert(guest_memory::is_mapped(ram, desc_addr as int, 16));
                    return None;
                },
            };
            let desc = Descriptor::from_bytes(buf.as_slice());
            assert(desc == desc_at(ram, config, desc_idx));

            if desc.flags & desc_flags::INDIRECT != 0 {
                return None;
            }
            if desc.len > MAX_DESC_LEN {
                return None;
            }
            let next_chain_bytes: usize = chain_bytes + desc.len as usize;
            assert(next_chain_bytes == path_bytes(ram, config, next));
            if next_chain_bytes > MAX_CHAIN_BYTES {
                return None;
            }
            chain_bytes = next_chain_bytes;
            if !check_range(mem, desc.addr, desc.len as usize) {
                return None;
            }
            if desc.flags & desc_flags::WRITE != 0 {
                writable.push((desc.addr, desc.len));
            } else {
                readable.push((desc.addr, desc.len));
            }
            chain_len = chain_len + 1;

            assert(next.no_duplicates());
            assert forall|i: int| 0 <= i < next.len() implies desc_acceptable(
                ram,
                config,
                #[trigger] next[i],
            ) by {
                if i < path.len() {
                    assert(next[i] == path[i]);
                }
            }
            assert forall|i: int| 0 <= i < next.len() - 1 implies #[trigger] links_on(
                ram,
                config,
                next,
                i,
            ) by {
                if i < path.len() - 1 {
                    assert(links_on(ram, config, path, i));
                }
            }
            if desc.flags & desc_flags::NEXT == 0 {
                assert(is_chain_path(ram, config, head_desc_idx, next));
                proof {
                    let chosen = choose|q: Seq<u16>| is_chain_path(ram, config, head_desc_idx, q);
                    lemma_chain_path_unique(ram, config, head_desc_idx, next, chosen);
                }
                let chain = DescriptorChain { readable, writable, len: chain_len as u32 };
                assert(chain@ =~= path_chain(ram, config, next));
                return Some(chain);
            }
            desc_idx = desc.next;
            proof {
                let longer = next.push(desc_idx);
                assert(longer[next.len() - 1] == next.last());
                assert(links_on(ram, config, longer, next.len() - 1));
                lemma_distinct_below(next, config.size);
                assert forall|j: u16| j < size implies (#[trigger] visited@[j as int]
                    == next.contains(j)) by {
                    if next.contains(j) {
                        let i = choose|i: int| 0 <= i < next.len() && next[i] == j;
                        if i < path.len() {
                            assert(path[i] == j);
                        }
                    }
                    if path.contains(j) {
                        let i = choose|i: int| 0 <= i < path.len() && path[i] == j;
                        assert(next[i] == j);
                    }
                    assert(next[path.len() as int] == visited_slot);
                }
                path = next;
            }
        }
    }

    /// The index up to which the guest has made chains available, if the queue is usable.
    pub fn available(&self, mem: &GuestMemoryMmap) -> (r: Option<u16>)
        ensures
            r is Some == queue_usable(guest_memory::guest_bytes(*mem), self.config),
            r matches Some(idx) ==> idx == avail_ring_idx(
                guest_memory::guest_bytes(*mem),
                self.config,
            ),
    {
        if !self.queue_is_usable(mem) {
            return None;
        }
        match read_bytes(mem, self.config.avail_ring_addr, 4) {
            Some(header) => Some(AvailRing::from_bytes(header.as_slice()).idx),
            None => {
                assert(guest_memory::is_mapped(
                    guest_memory::guest_bytes(*mem),
                    self.config.avail_ring_addr as int,
                    4,
                ));
                None
            },
        }
    }

    /// Moves past the chains that are rejected and returns the next one that is not, with its
    /// head descriptor. The chain stays available until it is completed.
    pub fn next_chain(&mut self, mem: &GuestMemoryMmap, target: u16) -> (r: Option<
        (u16, DescriptorChain),
    >)
        requires
            queue_usable(guest_memory::guest_bytes(*mem), old(self).config),
        ensures
            *final(self) == (VirtQueueProcessor {
                last_avail_idx: skip_rejected(
                    guest_memory::guest_bytes(*mem),
                    old(self).config,
                    old(self).last_avail_idx,
                    target,
                ),
                ..*old(self)
            }),
            r is None == (final(self).last_avail_idx == target),
            r matches Some((head, chain)) ==> {
                &&& head == avail_head(
                    guest_memory::guest_bytes(*mem),
                    old(self).config,
                    final(self).last_avail_idx,
                )
                &&& chain_from(guest_memory::guest_bytes(*mem), old(self).config, head) == Some(
                    chain@,
                )
            },
    {
        let ghost ram = guest_memory::guest_bytes(*mem);
        let ghost config = self.config;
        let ghost start = self.last_avail_idx;
        while self.last_avail_idx != target
            invariant
                ram == guest_memory::guest_bytes(*mem),
                config == self.config,
                queue_usable(ram, config),
                self.last_used_idx == old(self).last_used_idx,
                config == old(self).config,
                start == old(self).last_avail_idx,
                skip_rejected(ram, config, start, target) == skip_rejected(
                    ram,
                    config,
                    self.last_avail_idx,
                    target,
                ),
            decreases idx_distance(self.last_avail_idx, target),
        {
            let slot: u64 = (self.last_avail_idx % self.config.size) as u64;
            assert(self.last_avail_idx as int % config.size as int == slot);
            assert(slot < config.size);
            let entry: u64 = self.config.avail_ring_addr + (4 + 2 * slot);
            assert(guest_memory::is_mapped(ram, entry as int, 2));
            match read_bytes(mem, entry, 2) {
                Some(b) => {
                    let head: u16 = read_le16(b.as_slice(), 0);
                    assert(head == avail_head(ram, config, self.last_avail_idx));
                    match self.walk_descriptor_chain(mem, head) {
                        Some(chain) => {
                            return Some((head, chain));
                        },
                        None => {
                            self.reject_available_chain();
                        },
                    }
                },
                None => {
                    return None;
                },
            }
        }
        None
    }

    /// Leaves the current chain unprocessed for good.
    fn reject_available_chain(&mut self)
        ensures
            *final(self) == (VirtQueueProcessor {
                last_avail_idx: next_idx(old(self).last_avail_idx),
                ..*old(self)
            }),
    {
        self.last_avail_idx = self.last_avail_idx.wrapping_add(1);
    }

    /// Hands the current chain back to the guest: stores its entry in the used ring and moves
    /// both positions on. The guest sees it once the index is published.
    pub fn complete_chain(
        &mut self,
        mem: &mut GuestMemoryMmap,
        dirty: &mut SoftwareDirtyBitmap,
        head: u16,
        used_len: u32,
    )
        requires
            queue_usable(guest_memory::guest_bytes(*old(mem)), old(self).config),
        ensures
            *final(self) == (VirtQueueProcessor {
                last_avail_idx: next_idx(old(self).last_avail_idx),
                last_used_idx: next_idx(old(self).last_used_idx),
                ..*old(self)
            }),
            buffers::mem_state(*final(mem), *final(dirty)) == used_entry_stored(
                buffers::mem_state(*old(mem), *old(dirty)),
                old(self).config,
                old(self).last_used_idx,
                head,
                used_len,
            ),
            guest_memory::guest_bytes(*final(mem)).dom() == guest_memory::guest_bytes(
                *old(mem),
            ).dom(),
    {
        let elem: Vec<u8> = UsedElem { id: head as u32, len: used_len }.to_bytes();
        let slot: u64 = (self.last_used_idx % self.config.size) as u64;
        assert(self.last_used_idx as int % self.config.size as int == slot);
        assert(slot < self.config.size);
        let entry: u64 = self.config.used_ring_addr + (4 + 8 * slot);
        assert(guest_memory::is_mapped(guest_memory::guest_bytes(*mem), entry as int, 8));
        let _ok = write_slice_mem(mem, dirty, elem.as_slice(), entry);
        self.last_used_idx = self.last_used_idx.wrapping_add(1);
        self.last_avail_idx = self.last_avail_idx.wrapping_add(1);
    }

    /// Publishes the used index, which stands behind the used ring's flags.
    pub fn publish_used(&self, mem: &mut GuestMemoryMmap, dirty: &mut SoftwareDirtyBitmap)
        requires
            queue_usable(guest_memory::guest_bytes(*old(mem)), self.config),
        ensures
            buffers::mem_state(*final(mem), *final(dirty)) == used_idx_stored(
                buffers::mem_state(*old(mem), *old(dirty)),
                self.config,
                self.last_used_idx,
            ),
            guest_memory::guest_bytes(*final(mem)).dom() == guest_memory::guest_bytes(
                *old(mem),
            ).dom(),
    {
        let mut idx: Vec<u8> = Vec::new();
        push_le16(&mut idx, self.last_used_idx);
        assert(idx@ =~= bytes::le16_bytes(self.last_used_idx as int));
        let addr: u64 = self.config.used_ring_addr + 2;
        assert(guest_memory::is_mapped(guest_memory::guest_bytes(*mem), addr as int, 2));
        let _ok = write_slice_mem(mem, dirty, idx.as_slice(), addr);
    }
}

/// The state of a pass over a queue: ring positions, memory, and chains completed so far.
#[verifier::ext_equal]
pub struct PassState {
    pub avail: u16,
    pub used: u16,
    pub mem: buffers::MemState,
    pub done: nat,
}

impl PassState {
    /// The state after the chain with head descriptor `head` was completed.
    pub open spec fn completed(self, config: QueueConfig, head: u16, len: u32) -> PassState {
        PassState {
            avail: next_idx(self.avail),
            used: next_idx(self.used),
            mem: used_entry_stored(self.mem, config, self.used, head, len),
            done: self.done + 1,
        }
    }

    /// The state with the chains in front of the next acceptable one passed over.
    pub open spec fn skipped(self, config: QueueConfig, target: u16) -> PassState {
        PassState { avail: skip_rejected(self.mem.ram, config, self.avail, target), ..self }
    }

    /// The state in which processor `p` starts a pass over memory `m`.
    pub open spec fn start(p: VirtQueueProcessor, m: buffers::MemState) -> PassState {
        PassState { avail: p.last_avail_idx, used: p.last_used_idx, mem: m, done: 0 }
    }
}

/// `handler` may answer `r` for a chain with these buffers.
pub open spec fn descriptors_answer<F: FnMut(&[(u64, u32)], &[(u64, u32)]) -> Option<u32>>(
    handler: F,
    readable: Seq<(u64, u32)>,
    writable: Seq<(u64, u32)>,
    r: Option<u32>,
) -> bool {
    exists|rd: &[(u64, u32)], wr: &[(u64, u32)]|
        rd@ == readable && wr@ == writable && #[trigger] call_ensures(handler, (rd, wr), r)
}

/// A pass from `s` with `handler` may end in `t`: each acceptable chain up to `target` is
/// handed over in turn and completed with the length that the handler gives, until the handler
/// gives none, which leaves the chain available.
pub open spec fn descriptors_pass<F: FnMut(&[(u64, u32)], &[(u64, u32)]) -> Option<u32>>(
    handler: F,
    config: QueueConfig,
    target: u16,
    s: PassState,
    t: PassState,
) -> bool
    decreases idx_distance(s.avail, target),
{
    let k = s.skipped(config, target);
    if k.avail == target || idx_distance(k.avail, target) > idx_distance(s.avail, target) {
        t == k
    } else {
        let head = avail_head(k.mem.ram, config, k.avail);
        let chain = chain_from(k.mem.ram, config, head)->0;
        ||| t == k && descriptors_answer(handler, chain.readable, chain.writable, None)
        ||| exists|len: u32|
            #![trigger k.completed(config, head, len)]
            descriptors_answer(handler, chain.readable, chain.writable, Some(len))
                && descriptors_pass(handler, config, target, k.completed(config, head, len), t)
    }
}

/// What an optional tracker holds when it is handed over.
pub open spec fn recorded_before(dirty: Option<&mut SoftwareDirtyBitmap>) -> Seq<(u64, u64)> {
    match dirty {
        Some(d) => (*d)@,
        None => Seq::empty(),
    }
}

/// Passing over rejected chains comes no farther from the target.
pub proof fn lemma_skip_rejected(ram: Map<int, u8>, config: QueueConfig, avail: u16, target: u16)
    ensures
        idx_distance(skip_rejected(ram, config, avail, target), target) <= idx_distance(
            avail,
            target,
        ),
        skip_rejected(ram, config, avail, target) != target ==> chain_from(
            ram,
            config,
            avail_head(ram, config, skip_rejected(ram, config, avail, target)),
        ) is Some,
    decreases idx_distance(avail, target),
{
    if !(avail == target || chain_from(ram, config, avail_head(ram, config, avail)) is Some) {
        lemma_skip_rejected(ram, config, next_idx(avail), target);
    }
}

impl VirtQueueProcessor {
    /// Process all available chains, exposing raw descriptor lists to the handler instead of
    /// collecting them into a status-terminated byte buffer.
    ///
    /// The handler receives `(readable_descs, writable_descs)` as guest-physical `(addr, len)`
    /// pairs and returns the number of bytes written into the chain. This becomes
    /// `UsedElem.len`.
    ///
    /// If `handler` returns `None`, the chain is skipped: the avail-ring cursor does NOT
    /// advance, the used ring is NOT updated, and the next call retries the same chain.
    pub fn process_queue_descriptors<F>(
        &mut self,
        mem: &mut GuestMemoryMmap,
        handler: F,
    ) -> (processed: usize) where F: FnMut(&[(u64, u32)], &[(u64, u32)]) -> Option<u32>
        requires
            forall|rd: &[(u64, u32)], wr: &[(u64, u32)]| call_requires(handler, (rd, wr)),
        ensures
            final(self).config == old(self).config,
            !queue_usable(guest_memory::guest_bytes(*old(mem)), old(self).config) ==> {
                &&& processed == 0
                &&& *final(self) == *old(self)
                &&& guest_memory::guest_bytes(*final(mem)) == guest_memory::guest_bytes(*old(mem))
            },
            queue_usable(guest_memory::guest_bytes(*old(mem)), old(self).config) ==> exists|
                t: PassState,
            |
                {
                    &&& #[trigger] descriptors_pass(
                        handler,
                        old(self).config,
                        avail_ring_idx(guest_memory::guest_bytes(*old(mem)), old(self).config),
                        PassState::start(
                            *old(self),
                            buffers::MemState {
                                ram: guest_memory::guest_bytes(*old(mem)),
                                marks: Seq::empty(),
                            },
                        ),
                        t,
                    )
                    &&& final(self).last_avail_idx == t.avail
                    &&& final(self).last_used_idx == t.used
                    &&& processed == t.done
                    &&& guest_memory::guest_bytes(*final(mem)) == used_idx_stored(
                        t.mem,
                        old(self).config,
                        t.used,
                    ).ram
                },
    {
        let mut dirty = SoftwareDirtyBitmap::new();
        self.run_descriptors(mem, &mut dirty, handler)
    }

    /// [`process_queue_descriptors`](Self::process_queue_descriptors) that records in `dirty`
    /// what it stores in guest memory.
    pub fn process_queue_descriptors_dirty<F>(
        &mut self,
        mem: &mut GuestMemoryMmap,
        dirty: Option<&mut SoftwareDirtyBitmap>,
        handler: F,
    ) -> (processed: usize) where F: FnMut(&[(u64, u32)], &[(u64, u32)]) -> Option<u32>
        requires
            forall|rd: &[(u64, u32)], wr: &[(u64, u32)]| call_requires(handler, (rd, wr)),
        ensures
            final(self).config == old(self).config,
            !queue_usable(guest_memory::guest_bytes(*old(mem)), old(self).config) ==> {
                &&& processed == 0
                &&& *final(self) == *old(self)
                &&& guest_memory::guest_bytes(*final(mem)) == guest_memory::guest_bytes(*old(mem))
                &&& dirty matches Some(d) ==> (*final(d))@ == (*d)@
            },
            queue_usable(guest_memory::guest_bytes(*old(mem)), old(self).config) ==> exists|
                t: PassState,
            |
                {
                    &&& #[trigger] descriptors_pass(
                        handler,
                        old(self).config,
                        avail_ring_idx(guest_memory::guest_bytes(*old(mem)), old(self).config),
                        PassState::start(
                            *old(self),
                            buffers::MemState {
                                ram: guest_memory::guest_bytes(*old(mem)),
                                marks: recorded_before(dirty),
                            },
                        ),
                        t,
                    )
                    &&& final(self).last_avail_idx == t.avail
                    &&& final(self).last_used_idx == t.used
                    &&& processed == t.done
                    &&& guest_memory::guest_bytes(*final(mem)) == used_idx_stored(
                        t.mem,
                        old(self).config,
                        t.used,
                    ).ram
                    &&& dirty matches Some(d) ==> (*final(d))@ == used_idx_stored(
                        t.mem,
                        old(self).config,
                        t.used,
                    ).marks
                },
    {
        match dirty {
            Some(d) => self.run_descriptors(mem, d, handler),
            None => {
                let mut none = SoftwareDirtyBitmap::new();
                self.run_descriptors(mem, &mut none, handler)
            },
        }
    }

    fn run_descriptors<F>(
        &mut self,
        mem: &mut GuestMemoryMmap,
        dirty: &mut SoftwareDirtyBitmap,
        handler: F,
    ) -> (processed: usize) where F: FnMut(&[(u64, u32)], &[(u64, u32)]) -> Option<u32>
        requires
            forall|rd: &[(u64, u32)], wr: &[(u64, u32)]| call_requires(handler, (rd, wr)),
        ensures
            final(self).config == old(self).config,
            !queue_usable(guest_memory::guest_bytes(*old(mem)), old(self).config) ==> {
                &&& processed == 0
                &&& *final(self) == *old(self)
                &&& buffers::mem_state(*final(mem), *final(dirty)) == buffers::mem_state(
                    *old(mem),
                    *old(dirty),
                )
            },
            queue_usable(guest_memory::guest_bytes(*old(mem)), old(self).config) ==> exists|
                t: PassState,
            |
                {
                    &&& #[trigger] descriptors_pass(
                        handler,
                        old(self).config,
                        avail_ring_idx(guest_memory::guest_bytes(*old(mem)), old(self).config),
                        PassState::start(
                            *old(self),
                            buffers::mem_state(*old(mem), *old(dirty)),
                        ),
                        t,
                    )
                    &&& final(self).last_avail_idx == t.avail
                    &&& final(self).last_used_idx == t.used
                    &&& processed == t.done
                    &&& buffers::mem_state(*final(mem), *final(dirty)) == used_idx_stored(
                        t.mem,
                        old(self).config,
                        t.used,
                    )
                },
    {
        let ghost h0 = handler;
        let mut handler = handler;
        let target: u16 = match self.available(mem) {
            Some(idx) => idx,
            None => {
                return 0;
            },
        };
        let ghost config = self.config;
        let ghost s0 = PassState::start(*old(self), buffers::mem_state(*old(mem), *old(dirty)));
        let ghost mut s = s0;
        let mut processed: usize = 0;
        loop
            invariant_except_break
                processed + idx_distance(s.avail, target) <= 0xffff,
                forall|t: PassState|
                    #[trigger] descriptors_pass(handler, config, target, s, t)
                        ==> descriptors_pass(handler, config, target, s0, t),
            invariant
                handler == h0,
                self.config == config,
                queue_usable(guest_memory::guest_bytes(*mem), config),
                forall|rd: &[(u64, u32)], wr: &[(u64, u32)]| call_requires(handler, (rd, wr)),
                s.avail == self.last_avail_idx,
                s.used == self.last_used_idx,
                s.mem == buffers::mem_state(*mem, *dirty),
                s.done == processed,
            ensures
                descriptors_pass(handler, config, target, s0, s),
            decreases idx_distance(self.last_avail_idx, target),
        {
            let ghost k = s.skipped(config, target);
            proof {
                lemma_skip_rejected(s.mem.ram, config, s.avail, target);
            }
            match self.next_chain(mem, target) {
                None => {
                    assert(descriptors_pass(handler, config, target, s, k));
                    proof {
                        s = k;
                    }
                    break;
                },
                Some((head, chain)) => {
                    let ghost before = guest_memory::guest_bytes(*mem);
                    match handler(chain.readable.as_slice(), chain.writable.as_slice()) {
                        None => {
                            assert(descriptors_answer(
                                handler,
                                chain@.readable,
                                chain@.writable,
                                None,
                            ));
                            assert(descriptors_pass(handler, config, target, s, k));
                            proof {
                                s = k;
                            }
                            break;
                        },
                        Some(used_len) => {
                            assert(descriptors_answer(
                                handler,
                                chain@.readable,
                                chain@.writable,
                                Some(used_len),
                            ));
                            self.complete_chain(mem, dirty, head, used_len);
                            proof {
                                lemma_usable_dom(
                                    before,
                                    guest_memory::guest_bytes(*mem),
                                    config,
                                );
                                let next = k.completed(config, head, used_len);
                                assert forall|t: PassState|
                                    #[trigger] descriptors_pass(
                                        handler,
                                        config,
                                        target,
                                        next,
                                        t,
                                    ) implies descriptors_pass(
                                    handler,
                                    config,
                                    target,
                                    s0,
                                    t,
                                ) by {
                                    assert(descriptors_pass(handler, config, target, s, t));
                                }
                                s = next;
                            }
                            processed = processed + 1;
                        },
                    }
                },
            }
        }
        self.publish_used(mem, dirty);
        processed
    }
}

/// `handler` may turn the writable bytes `before` into `after` and answer `status`.
pub open spec fn request_answer<F: FnMut(&[u8], Vec<u8>) -> (Vec<u8>, u8)>(
    handler: F,
    readable: Seq<u8>,
    before: Seq<u8>,
    after: Seq<u8>,
    status: u8,
) -> bool {
    exists|rd: &[u8], wr: Vec<u8>, left: Vec<u8>|
        rd@ == readable && wr@ == before && left@ == after && #[trigger] call_ensures(
            handler,
            (rd, wr),
            (left, status),
        )
}

/// The writable buffers in front of the one for the status byte.
pub open spec fn data_buffers(writable: Seq<(u64, u32)>) -> Seq<(u64, u32)> {
    if writable.len() == 0 {
        Seq::empty()
    } else {
        writable.drop_last()
    }
}

/// Memory after `data` was laid over a chain's writable buffers but the last, and `status` was
/// stored at the last one's address. There is no status where that address is zero or unmapped.
pub open spec fn reply_stored(
    m: buffers::MemState,
    writable: Seq<(u64, u32)>,
    data: Seq<u8>,
    status: u8,
) -> buffers::MemState {
    let laid = buffers::scatter(m, data_buffers(writable), data);
    if writable.len() > 0 && writable.last().0 != 0 && guest_memory::is_mapped(
        m.ram,
        writable.last().0 as int,
        1,
    ) {
        laid.store(writable.last().0 as int, seq![status])
    } else {
        laid
    }
}

/// A pass from `s` with `handler` may end in `t`: the handler gets the readable bytes of each
/// acceptable chain up to `target` and the bytes of its data buffers; what it leaves there and
/// its status go back to the guest, and the chain is completed.
pub open spec fn requests_pass<F: FnMut(&[u8], Vec<u8>) -> (Vec<u8>, u8)>(
    handler: F,
    config: QueueConfig,
    target: u16,
    s: PassState,
    t: PassState,
) -> bool
    decreases idx_distance(s.avail, target),
{
    let k = s.skipped(config, target);
    if k.avail == target || idx_distance(k.avail, target) > idx_distance(s.avail, target) {
        t == k
    } else {
        let head = avail_head(k.mem.ram, config, k.avail);
        let chain = chain_from(k.mem.ram, config, head)->0;
        exists|after: Seq<u8>, status: u8|
            #![trigger reply_stored(k.mem, chain.writable, after, status)]
            {
                &&& request_answer(
                    handler,
                    buffers::gather(k.mem.ram, chain.readable),
                    buffers::gather(k.mem.ram, data_buffers(chain.writable)),
                    after,
                    status,
                )
                &&& requests_pass(
                    handler,
                    config,
                    target,
                    PassState {
                        mem: reply_stored(k.mem, chain.writable, after, status),
                        ..k
                    }.completed(config, head, chain.len as u32),
                    t,
                )
            }
    }
}

impl VirtQueueProcessor {
    /// Process all available requests on the queue. Returns the number of requests processed.
    ///
    /// For each descriptor chain:
    /// 1. Read the descriptor at the avail ring index
    /// 2. Walk the chain (following NEXT flags)
    /// 3. Classify descriptors: readable (request header + data) vs writable (data + status)
    /// 4. Call `handler` with the readable data and the bytes of the writable buffers; it gives
    ///    back the bytes to store there, and the status
    /// 5. Write the status to the writable status descriptor
    /// 6. Update the used ring
    pub fn process_queue<F>(&mut self, mem: &mut GuestMemoryMmap, handler: F) -> (processed:
        usize) where F: FnMut(&[u8], Vec<u8>) -> (Vec<u8>, u8)
        requires
            forall|rd: &[u8], wr: Vec<u8>| call_requires(handler, (rd, wr)),
        ensures
            final(self).config == old(self).config,
            !queue_usable(guest_memory::guest_bytes(*old(mem)), old(self).config) ==> {
                &&& processed == 0
                &&& *final(self) == *old(self)
                &&& guest_memory::guest_bytes(*final(mem)) == guest_memory::guest_bytes(*old(mem))
            },
            queue_usable(guest_memory::guest_bytes(*old(mem)), old(self).config) ==> exists|
                t: PassState,
            |
                {
                    &&& #[trigger] requests_pass(
                        handler,
                        old(self).config,
                        avail_ring_idx(guest_memory::guest_bytes(*old(mem)), old(self).config),
                        PassState::start(
                            *old(self),
                            buffers::MemState {
                                ram: guest_memory::guest_bytes(*old(mem)),
                                marks: Seq::empty(),
                            },
                        ),
                        t,
                    )
                    &&& final(self).last_avail_idx == t.avail
                    &&& final(self).last_used_idx == t.used
                    &&& processed == t.done
                    &&& guest_memory::guest_bytes(*final(mem)) == used_idx_stored(
                        t.mem,
                        old(self).config,
                        t.used,
                    ).ram
                },
    {
        let mut dirty = SoftwareDirtyBitmap::new();
        self.run_requests(mem, &mut dirty, handler)
    }

    /// [`process_queue`](Self::process_queue) that records in `dirty` what it stores in guest
    /// memory.
    pub fn process_queue_dirty<F>(
        &mut self,
        mem: &mut GuestMemoryMmap,
        dirty: Option<&mut SoftwareDirtyBitmap>,
        handler: F,
    ) -> (processed: usize) where F: FnMut(&[u8], Vec<u8>) -> (Vec<u8>, u8)
        requires
            forall|rd: &[u8], wr: Vec<u8>| call_requires(handler, (rd, wr)),
        ensures
            final(self).config == old(self).config,
            !queue_usable(guest_memory::guest_bytes(*old(mem)), old(self).config) ==> {
                &&& processed == 0
                &&& *final(self) == *old(self)
                &&& guest_memory::guest_bytes(*final(mem)) == guest_memory::guest_bytes(*old(mem))
                &&& dirty matches Some(d) ==> (*final(d))@ == (*d)@
            },
            queue_usable(guest_memory::guest_bytes(*old(mem)), old(self).config) ==> exists|
                t: PassState,
            |
                {
                    &&& #[trigger] requests_pass(
                        handler,
                        old(self).config,
                        avail_ring_idx(guest_memory::guest_bytes(*old(mem)), old(self).config),
                        PassState::start(
                            *old(self),
                            buffers::MemState {
                                ram: guest_memory::guest_bytes(*old(mem)),
                                marks: recorded_before(dirty),
                            },
                        ),
                        t,
                    )
                    &&& final(self).last_avail_idx == t.avail
                    &&& final(self).last_used_idx == t.used
                    &&& processed == t.done
                    &&& guest_memory::guest_bytes(*final(mem)) == used_idx_stored(
                        t.mem,
                        old(self).config,
                        t.used,
                    ).ram
                    &&& dirty matches Some(d) ==> (*final(d))@ == used_idx_stored(
                        t.mem,
                        old(self).config,
                        t.used,
                    ).marks
                },
    {
        match dirty {
            Some(d) => self.run_requests(mem, d, handler),
            None => {
                let mut none = SoftwareDirtyBitmap::new();
                self.run_requests(mem, &mut none, handler)
            },
        }
    }

    fn run_requests<F>(
        &mut self,
        mem: &mut GuestMemoryMmap,
        dirty: &mut SoftwareDirtyBitmap,
        handler: F,
    ) -> (processed: usize) where F: FnMut(&[u8], Vec<u8>) -> (Vec<u8>, u8)
        requires
            forall|rd: &[u8], wr: Vec<u8>| call_requires(handler, (rd, wr)),
        ensures
            final(self).config == old(self).config,
            !queue_usable(guest_memory::guest_bytes(*old(mem)), old(self).config) ==> {
                &&& processed == 0
                &&& *final(self) == *old(self)
                &&& buffers::mem_state(*final(mem), *final(dirty)) == buffers::mem_state(
                    *old(mem),
                    *old(dirty),
                )
            },
            queue_usable(guest_memory::guest_bytes(*old(mem)), old(self).config) ==> exists|
                t: PassState,
            |
                {
                    &&& #[trigger] requests_pass(
                        handler,
                        old(self).config,
                        avail_ring_idx(guest_memory::guest_bytes(*old(mem)), old(self).config),
                        PassState::start(
                            *old(self),
                            buffers::mem_state(*old(mem), *old(dirty)),
                        ),
                        t,
                    )
                    &&& final(self).last_avail_idx == t.avail
                    &&& final(self).last_used_idx == t.used
                    &&& processed == t.done
                    &&& buffers::mem_state(*final(mem), *final(dirty)) == used_idx_stored(
                        t.mem,
                        old(self).config,
                        t.used,
                    )
                },
    {
        let ghost h0 = handler;
        let mut handler = handler;
        let target: u16 = match self.available(mem) {
            Some(idx) => idx,
            None => {
                return 0;
            },
        };
        let ghost config = self.config;
        let ghost s0 = PassState::start(*old(self), buffers::mem_state(*old(mem), *old(dirty)));
        let ghost mut s = s0;
        let mut processed: usize = 0;
        loop
            invariant_except_break
                processed + idx_distance(s.avail, target) <= 0xffff,
                forall|t: PassState|
                    #[trigger] requests_pass(handler, config, target, s, t) ==> requests_pass(
                        handler,
                        config,
                        target,
                        s0,
                        t,
                    ),
            invariant
                handler == h0,
                self.config == config,
                queue_usable(guest_memory::guest_bytes(*mem), config),
                forall|rd: &[u8], wr: Vec<u8>| call_requires(handler, (rd, wr)),
                s.avail == self.last_avail_idx,
                s.used == self.last_used_idx,
                s.mem == buffers::mem_state(*mem, *dirty),
                s.done == processed,
            ensures
                requests_pass(handler, config, target, s0, s),
            decreases idx_distance(self.last_avail_idx, target),
        {
            let ghost k = s.skipped(config, target);
            proof {
                lemma_skip_rejected(s.mem.ram, config, s.avail, target);
            }
            match self.next_chain(mem, target) {
                None => {
                    assert(requests_pass(handler, config, target, s, k));
                    proof {
                        s = k;
                    }
                    break;
                },
                Some((head, chain)) => {
                    proof {
                        lemma_chain_buffers(s.mem.ram, config, head);
                    }
                    let (after, status) = Self::call_handler(mem, &mut handler, &chain);
                    let ghost before = guest_memory::guest_bytes(*mem);
                    Self::store_reply(mem, dirty, &chain, after.as_slice(), status);
                    proof {
                        lemma_usable_dom(before, guest_memory::guest_bytes(*mem), config);
                    }
                    let ghost mid = guest_memory::guest_bytes(*mem);
                    self.complete_chain(mem, dirty, head, chain.len);
                    proof {
                        lemma_usable_dom(mid, guest_memory::guest_bytes(*mem), config);
                        let next = PassState {
                            mem: reply_stored(k.mem, chain@.writable, after@, status),
                            ..k
                        }.completed(config, head, chain@.len as u32);
                        assert forall|t: PassState|
                            #[trigger] requests_pass(
                                handler,
                                config,
                                target,
                                next,
                                t,
                            ) implies requests_pass(handler, config, target, s0, t) by {
                            assert(requests_pass(handler, config, target, s, t));
                        }
                        s = next;
                    }
                    processed = processed + 1;
                },
            }
        }
        self.publish_used(mem, dirty);
        processed
    }

    /// Collects the bytes of a chain and hands them to `handler`; returns what it left in the
    /// data buffers, and its status.
    fn call_handler<F>(mem: &GuestMemoryMmap, handler: &mut F, chain: &DescriptorChain) -> (r: (
        Vec<u8>,
        u8,
    )) where F: FnMut(&[u8], Vec<u8>) -> (Vec<u8>, u8)
        requires
            forall|rd: &[u8], wr: Vec<u8>| call_requires(*old(handler), (rd, wr)),
            buffers::all_mapped(guest_memory::guest_bytes(*mem), chain.readable@),
            buffers::all_mapped(guest_memory::guest_bytes(*mem), chain.writable@),
        ensures
            *final(handler) == *old(handler),
            request_answer(
                *old(handler),
                buffers::gather(guest_memory::guest_bytes(*mem), chain.readable@),
                buffers::gather(guest_memory::guest_bytes(*mem), data_buffers(chain.writable@)),
                r.0@,
                r.1,
            ),
    {
        let rn: usize = chain.readable.len();
        assert(chain.readable@.take(rn as int) =~= chain.readable@);
        let readable_data = match read_descs(mem, chain.readable.as_slice(), rn) {
            Some(data) => data,
            None => Vec::new(),
        };
        let wn: usize = if chain.writable.len() == 0 {
            0
        } else {
            chain.writable.len() - 1
        };
        assert(chain.writable@.take(wn as int) =~= data_buffers(chain.writable@));
        proof {
            buffers::lemma_all_mapped_take(
                guest_memory::guest_bytes(*mem),
                chain.writable@,
                wn as int,
            );
        }
        let writable_data = match read_descs(mem, chain.writable.as_slice(), wn) {
            Some(data) => data,
            None => Vec::new(),
        };
        handler(readable_data.as_slice(), writable_data)
    }

    /// Stores what the handler left in the data buffers, and its status.
    fn store_reply(
        mem: &mut GuestMemoryMmap,
        dirty: &mut SoftwareDirtyBitmap,
        chain: &DescriptorChain,
        data: &[u8],
        status: u8,
    )
        requires
            buffers::all_mapped(guest_memory::guest_bytes(*old(mem)), chain.writable@),
        ensures
            buffers::mem_state(*final(mem), *final(dirty)) == reply_stored(
                buffers::mem_state(*old(mem), *old(dirty)),
                chain.writable@,
                data@,
                status,
            ),
            guest_memory::guest_bytes(*final(mem)).dom() == guest_memory::guest_bytes(
                *old(mem),
            ).dom(),
    {
        let n: usize = chain.writable.len();
        if n == 0 {
            return ;
        }
        assert(chain.writable@.take(n - 1) =~= data_buffers(chain.writable@));
        proof {
            buffers::lemma_scatter_dom(
                buffers::mem_state(*mem, *dirty),
                data_buffers(chain.writable@),
                data@,
            );
        }
        let _written: usize = write_descs(mem, dirty, chain.writable.as_slice(), n - 1, data);
        let (status_addr, _len) = chain.writable[n - 1];
        if status_addr != 0 {
            let byte: Vec<u8> = vec![status];
            assert(byte@ =~= seq![status]);
            let _ok = write_slice_mem(mem, dirty, byte.as_slice(), status_addr);
        }
    }
}

/// A pass over a queue by a device that works on `work` besides memory.
#[verifier::ext_equal]
pub struct Pass<W> {
    pub pass: PassState,
    pub work: W,
}

impl<W> Pass<W> {
    /// The chains in front of the next acceptable one are passed over.
    pub open spec fn skipped(self, config: QueueConfig, target: u16) -> Pass<W> {
        Pass { pass: self.pass.skipped(config, target), ..self }
    }

    /// The device has taken up a chain, which left it with this work and memory.
    pub open spec fn worked(self, work: W, mem: buffers::MemState) -> Pass<W> {
        Pass { pass: PassState { mem, ..self.pass }, work }
    }

    /// The chain with head descriptor `head` is completed.
    pub open spec fn completed(self, config: QueueConfig, head: u16, len: u32) -> Pass<W> {
        Pass { pass: self.pass.completed(config, head, len), ..self }
    }
}

/// One way in which a device may take up a chain: the work and the memory before, the chain, the
/// work and the memory after, and the length to complete the chain with, if any.
pub type ChainStep<W> = spec_fn(
    W,
    buffers::MemState,
    ChainView,
    W,
    buffers::MemState,
    Option<u32>,
) -> bool;

/// A pass of a device from `s` may end in `t`: each acceptable chain up to `target` is taken up
/// in turn, as `step` allows, and completed with the length it gives, until it gives none, which
/// leaves the chain available.
pub open spec fn device_pass<W>(
    step: ChainStep<W>,
    config: QueueConfig,
    target: u16,
    s: Pass<W>,
    t: Pass<W>,
) -> bool
    decreases idx_distance(s.pass.avail, target),
{
    let k = s.skipped(config, target);
    if k.pass.avail == target || idx_distance(k.pass.avail, target) > idx_distance(
        s.pass.avail,
        target,
    ) {
        t == k
    } else {
        let head = avail_head(k.pass.mem.ram, config, k.pass.avail);
        let chain = chain_from(k.pass.mem.ram, config, head)->0;
        exists|w: W, m: buffers::MemState, answer: Option<u32>|
            #[trigger] step(k.work, k.pass.mem, chain, w, m, answer) && match answer {
                None => t == k.worked(w, m),
                Some(len) => device_pass(
                    step,
                    config,
                    target,
                    k.worked(w, m).completed(config, head, len),
                    t,
                ),
            }
    }
}

} // verus!
