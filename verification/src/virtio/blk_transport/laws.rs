//! What a block request does to guest memory and to the disk.
use crate::bytes;
use crate::dirty::SoftwareDirtyBitmap;
use crate::guest_memory;
use crate::rate_limit::{self, Buckets, RateLimiter};
use crate::virtio::blk::BlkReqHeader;
use crate::virtio::blk_backend::disk::{self, DiskOp, DiskOpView};
use crate::virtio::blk_backend::laws::{self, DiskFiles};
use crate::virtio::blk_backend::{self, BackendView, BlkBackend, DiskFile, StorageView};
use crate::virtio::blk_transport::{self, BlkMmioView, BlkPass, BlkWork, VirtioBlkMmio};
use crate::virtio::buffers::laws as places;
use crate::virtio::buffers::{self, MemState};
use crate::virtio::transport_regs::TransportRegs;
use crate::virtio::vqueue::trace_laws::{self, Turn};
use crate::virtio::vqueue::{self, ChainStep, ChainView, DescriptorChain, Pass, QueueConfig};
use vm_memory::GuestMemoryMmap;
use vstd::prelude::*;

verus! {

/// The buffers of a chain are mapped, no two that the device writes overlap, and the last of them
/// has room for a status.
pub open spec fn sound(w: BlkWork, chain: ChainView) -> bool {
    &&& buffers::all_mapped(w.mem.ram, chain.readable)
    &&& buffers::all_mapped(w.mem.ram, chain.writable)
    &&& buffers::total_len(chain.readable) <= vqueue::MAX_CHAIN_BYTES
    &&& buffers::total_len(chain.writable) <= vqueue::MAX_CHAIN_BYTES
    &&& places::apart(chain.writable)
    &&& chain.writable.len() > 0
    &&& chain.writable.last().1 > 0
}

/// The bytes of a request that the guest has laid out.
pub open spec fn request(w: BlkWork, chain: ChainView) -> Seq<u8> {
    buffers::gather(w.mem.ram, chain.readable)
}

/// The type of a request: the integer in its first four bytes.
pub open spec fn type_of(data: Seq<u8>) -> int {
    bytes::le32_at(data, 0)
}

/// The place on the disk, in bytes, that a request names: its sectors have 512 bytes.
pub open spec fn place_of(data: Seq<u8>) -> int {
    bytes::le64_at(data, 8) * 512
}

/// The status byte that the guest finds.
pub open spec fn status_in(t: BlkWork, chain: ChainView) -> u8 {
    t.mem.ram[chain.writable.last().0 as int]
}

/// The buffers in front of the one for the status.
pub open spec fn data_room(chain: ChainView) -> Seq<(u64, u32)> {
    chain.writable.drop_last()
}

proof fn lemma_data_room(w: BlkWork, chain: ChainView)
    requires
        sound(w, chain),
    ensures
        vqueue::data_buffers(chain.writable) == data_room(chain),
        buffers::all_mapped(w.mem.ram, data_room(chain)),
        places::apart(data_room(chain)),
        buffers::total_len(data_room(chain)) <= buffers::total_len(chain.writable),
        forall|k: int, j: int| #[trigger]
            places::is_place(data_room(chain), k, j) ==> {
                &&& places::is_place(chain.writable, k, j)
                &&& data_room(chain)[k] == chain.writable[k]
                &&& !places::within(chain.writable.last(), chain.writable[k].0 + j)
            },
{
    let bufs = chain.writable;
    let front = data_room(chain);
    let last = bufs.len() - 1;
    assert(front =~= bufs.take(last));
    buffers::lemma_total_len_take(bufs, last);
    assert(places::apart(front)) by {
        assert forall|i: int, j: int, a: int|
            0 <= i < j < front.len() && #[trigger] places::within(front[i], a) implies !#[trigger] places::within(
            front[j], a) by {
            assert(front[i] == bufs[i] && front[j] == bufs[j]);
            assert(places::within(bufs[i], a));
        }
    }
    assert(buffers::all_mapped(w.mem.ram, front)) by {
        assert forall|i: int| 0 <= i < front.len() implies (#[trigger] front[i]).1 == 0
            || guest_memory::is_mapped(w.mem.ram, front[i].0 as int, front[i].1 as int) by {
            assert(front[i] == bufs[i]);
        }
    }
    assert forall|k: int, j: int| #[trigger] places::is_place(front, k, j) implies {
        &&& places::is_place(bufs, k, j)
        &&& front[k] == bufs[k]
        &&& !places::within(bufs.last(), bufs[k].0 + j)
    } by {
        assert(places::within(bufs[k], bufs[k].0 + j));
        assert(bufs.last() == bufs[last]);
    }
}

/// Storing the status changes one byte, the first of the last buffer.
proof fn lemma_status(m: MemState, chain: ChainView, st: u8)
    requires
        buffers::all_mapped(m.ram, chain.writable),
        chain.writable.len() > 0,
        chain.writable.last().1 > 0,
    ensures
        ({
            let n = blk_transport::status_stored(m, chain.writable, st);
            &&& n.ram.dom() == m.ram.dom()
            &&& n.ram[chain.writable.last().0 as int] == st
            &&& forall|a: int|
                m.ram.dom().contains(a) && a != chain.writable.last().0 ==> #[trigger] n.ram[a]
                    == m.ram[a]
            &&& places::recorded(m, n)
        }),
{
    let b = chain.writable.last();
    assert(b == chain.writable[chain.writable.len() - 1]);
    assert(guest_memory::is_mapped(m.ram, b.0 as int, b.1 as int));
    assert(m.ram.dom().contains(b.0 as int));
    guest_memory::lemma_ram_write_dom(m.ram, b.0 as int, seq![st]);
    places::lemma_store_recorded(m, b.0 as int, seq![st]);
}

/// What was charged for a chain, and that a refused one is left as it is. A read is charged for
/// all bytes of the buffers in front of the status, a write for all bytes behind its header.
pub proof fn law_blk_request_is_charged(
    w: BlkWork,
    chain: ChainView,
    t: BlkWork,
    answer: Option<u32>,
)
    requires
        sound(w, chain),
        blk_transport::chain_served(w, chain, t, answer),
    ensures
        ({
            let data = request(w, chain);
            let cost = if data.len() < 16 {
                0
            } else if type_of(data) == 0 {
                places::start_of(chain.writable, chain.writable.len() - 1)
            } else if type_of(data) == 1 {
                data.len() - 16
            } else if type_of(data) == 8 {
                20
            } else {
                0
            };
            rate_limit::limiter_charges(w.limiter, cost as u64, t.limiter, answer is Some)
        }),
        answer is None ==> t.mem == w.mem && t.backend == w.backend,
        answer matches Some(n) ==> n == chain.readable.len() + chain.writable.len() || chain.readable.len()
            + chain.writable.len() > u32::MAX,
{
    lemma_data_room(w, chain);
    places::law_gather_reads_every_byte(w.mem.ram, data_room(chain));
    lemma_room_start(chain.writable);
}

proof fn lemma_room_start(bufs: Seq<(u64, u32)>)
    requires
        bufs.len() > 0,
    ensures
        places::start_of(bufs.drop_last(), bufs.len() - 1) == places::start_of(
            bufs,
            bufs.len() - 1,
        ),
{
    lemma_same_start(bufs, bufs.len() - 1);
}

proof fn lemma_same_start(bufs: Seq<(u64, u32)>, k: int)
    requires
        k <= bufs.len() - 1,
    ensures
        places::start_of(bufs.drop_last(), k) == places::start_of(bufs, k),
    decreases k,
{
    if k > 0 {
        lemma_same_start(bufs, k - 1);
        assert(bufs.drop_last()[k - 1] == bufs[k - 1]);
    }
}

/// What serving a request says about the backend: it was asked with `buf`, left `left` in it, and
/// gave the status `st` that the guest finds.
proof fn lemma_served(
    w: BlkWork,
    chain: ChainView,
    t: BlkWork,
    n: u32,
    buf: Seq<u8>,
) -> (left: Seq<u8>)
    requires
        sound(w, chain),
        blk_transport::chain_served(w, chain, t, Some(n)),
        blk_transport::request_buffer(request(w, chain), chain.writable) == Some(buf),
    ensures
        blk_backend::service_runs(
            w.backend,
            BlkReqHeader::decoded(request(w, chain)),
            buf,
            t.backend,
            left,
            status_in(t, chain),
        ),
        t.mem == blk_transport::status_stored(
            if type_of(request(w, chain)) == 0 || type_of(request(w, chain)) == 8 {
                buffers::scatter(w.mem, data_room(chain), left)
            } else {
                w.mem
            },
            chain.writable,
            status_in(t, chain),
        ),
{
    let data = request(w, chain);
    let header = BlkReqHeader::decoded(data);
    lemma_data_room(w, chain);
    let (l, ok) = choose|l: Option<Buckets>, ok: bool|
        #[trigger] rate_limit::limiter_charges(
            w.limiter,
            blk_transport::request_cost(data, chain.writable),
            l,
            ok,
        ) && if ok {
            &&& Some(n) == Some((chain.readable.len() + chain.writable.len()) as u32)
            &&& blk_transport::request_served(BlkWork { limiter: l, ..w }, data, chain.writable, t)
        } else {
            Some(n) is None && t == BlkWork { limiter: l, ..w }
        };
    let w1 = BlkWork { limiter: l, ..w };
    assert(blk_transport::backend_serves(w1, header, buf, chain.writable, t));
    let (after, left, st) = choose|after: BackendView, left: Seq<u8>, st: u8|
        #[trigger] blk_backend::service_runs(w1.backend, header, buf, after, left, st) && t
            == blk_transport::request_answered(w1, header, chain.writable, after, left, st);
    let replied = if header.req_type == 0 || header.req_type == 8 {
        buffers::scatter(w.mem, data_room(chain), left)
    } else {
        w.mem
    };
    buffers::lemma_scatter_dom(w.mem, data_room(chain), left);
    buffers::lemma_all_mapped_dom(w.mem.ram, replied.ram, chain.writable);
    lemma_status(replied, chain, st);
    left
}

/// A read request that the guest finds completed with success has filled its buffers: byte `j` of
/// buffer `k` is the byte of the disk that stands, from the request's sector on, behind all bytes
/// of the buffers in front of it. Every buffer in front of the status is filled to its end. No
/// file and no other memory changed.
pub proof fn law_blk_read_fills_every_buffer(
    f: DiskFiles,
    w: BlkWork,
    chain: ChainView,
    t: BlkWork,
    n: u32,
)
    requires
        sound(w, chain),
        laws::storage_ok(w.backend),
        laws::truthful(f, disk::events(w.backend.log, t.backend.log)),
        blk_transport::chain_served(w, chain, t, Some(n)),
        request(w, chain).len() >= 16,
        type_of(request(w, chain)) == 0,
        status_in(t, chain) == 0,
    ensures
        forall|k: int, j: int|
            k < chain.writable.len() - 1 && #[trigger] places::is_place(chain.writable, k, j)
                ==> t.mem.ram[chain.writable[k].0 + j] == laws::storage_byte(
                f,
                w.backend.storage,
                place_of(request(w, chain)) + places::start_of(chain.writable, k) + j,
            ),
        t.backend.storage == w.backend.storage,
        laws::files_after(f, disk::events(w.backend.log, t.backend.log)) == f,
        forall|a: int|
            w.mem.ram.dom().contains(a) && a != chain.writable.last().0 && !places::in_any(
                data_room(chain),
                a,
            ) ==> #[trigger] t.mem.ram[a] == w.mem.ram[a],
{
    let data = request(w, chain);
    let header = BlkReqHeader::decoded(data);
    let bufs = data_room(chain);
    let room = buffers::total_len(bufs);
    lemma_data_room(w, chain);
    places::law_gather_reads_every_byte(w.mem.ram, bufs);
    assert(0u32 & !0x8000_0000u32 == 0) by (bit_vector);
    if room == 0 {
        lemma_unasked(w, chain, t, n);
    }
    let zeros = Seq::new(room, |i: int| 0u8);
    let left = lemma_served(w, chain, t, n, zeros);
    laws::law_read_gives_the_device(f, w.backend, header, zeros, t.backend, left);
    places::law_scatter_fills_every_buffer(w.mem, bufs, left);
    let replied = buffers::scatter(w.mem, bufs, left);
    buffers::lemma_all_mapped_dom(w.mem.ram, replied.ram, chain.writable);
    lemma_status(replied, chain, 0);
    lemma_le64_bound(data);
    assert forall|k: int, j: int|
        k < chain.writable.len() - 1 && #[trigger] places::is_place(
            chain.writable,
            k,
            j,
        ) implies t.mem.ram[chain.writable[k].0 + j] == laws::storage_byte(
        f,
        w.backend.storage,
        place_of(data) + places::start_of(chain.writable, k) + j,
    ) by {
        assert(bufs[k] == chain.writable[k]);
        assert(places::is_place(bufs, k, j));
        lemma_same_start(chain.writable, k);
        let a = chain.writable[k].0 + j;
        assert(places::within(chain.writable.last(), chain.writable.last().0 as int));
        assert(guest_memory::is_mapped(w.mem.ram, bufs[k].0 as int, bufs[k].1 as int));
        assert(w.mem.ram.dom().contains(a));
        assert(t.mem.ram[a] == replied.ram[a]);
        let i = places::start_of(bufs, k) + j;
        assert(replied.ram[a] == left[i]);
    }
    assert forall|a: int|
        w.mem.ram.dom().contains(a) && a != chain.writable.last().0 && !places::in_any(
            bufs,
            a,
        ) implies #[trigger] t.mem.ram[a] == w.mem.ram[a] by {
        assert(replied.ram[a] == w.mem.ram[a]);
    }
}

proof fn lemma_le64_bound(data: Seq<u8>)
    requires
        data.len() >= 16,
    ensures
        BlkReqHeader::decoded(data).req_type == type_of(data),
        BlkReqHeader::decoded(data).sector == bytes::le64_at(data, 8),
{
    bytes::lemma_le32_stands(data, 0);
    bytes::lemma_le64_stands(data, 8);
}

/// What a request that the backend is not asked for is answered.
proof fn lemma_unasked(w: BlkWork, chain: ChainView, t: BlkWork, n: u32)
    requires
        sound(w, chain),
        blk_transport::chain_served(w, chain, t, Some(n)),
        blk_transport::request_buffer(request(w, chain), chain.writable) is None,
    ensures
        status_in(t, chain) == blk_transport::unasked_status(request(w, chain)),
        t.backend == w.backend,
        forall|a: int|
            w.mem.ram.dom().contains(a) && a != chain.writable.last().0
                ==> #[trigger] t.mem.ram[a] == w.mem.ram[a],
        t.mem == blk_transport::status_stored(
            w.mem,
            chain.writable,
            blk_transport::unasked_status(request(w, chain)),
        ),
{
    lemma_status(w.mem, chain, blk_transport::unasked_status(request(w, chain)));
}

/// A read request that lies within the disk, with room for data, is completed with success
/// wherever no operation on a file fails.
pub proof fn law_blk_read_succeeds(w: BlkWork, chain: ChainView, t: BlkWork, n: u32)
    requires
        sound(w, chain),
        laws::storage_ok(w.backend),
        laws::healthy(disk::events(w.backend.log, t.backend.log)),
        blk_transport::chain_served(w, chain, t, Some(n)),
        request(w, chain).len() >= 16,
        type_of(request(w, chain)) == 0,
        places::start_of(chain.writable, chain.writable.len() - 1) > 0,
        laws::in_range(
            w.backend,
            BlkReqHeader::decoded(request(w, chain)),
            places::start_of(chain.writable, chain.writable.len() - 1),
        ),
    ensures
        status_in(t, chain) == 0,
{
    let bufs = data_room(chain);
    lemma_data_room(w, chain);
    lemma_room_start(chain.writable);
    places::law_gather_reads_every_byte(w.mem.ram, bufs);
    assert(0u32 & !0x8000_0000u32 == 0) by (bit_vector);
    let zeros = Seq::new(buffers::total_len(bufs), |i: int| 0u8);
    lemma_le64_bound(request(w, chain));
    let left = lemma_served(w, chain, t, n, zeros);
    laws::law_request_in_range_succeeds(
        w.backend,
        BlkReqHeader::decoded(request(w, chain)),
        zeros,
        t.backend,
        left,
        status_in(t, chain),
    );
}

/// A write request that the guest finds completed with success has put all bytes behind its header
/// on the disk, from its sector on: byte `16 + i` of the request is byte `i` there. All other bytes
/// of the disk, and all memory but the status, stay.
pub proof fn law_blk_write_stores_every_byte(
    f: DiskFiles,
    w: BlkWork,
    chain: ChainView,
    t: BlkWork,
    n: u32,
)
    requires
        sound(w, chain),
        laws::storage_ok(w.backend),
        laws::truthful(f, disk::events(w.backend.log, t.backend.log)),
        blk_transport::chain_served(w, chain, t, Some(n)),
        request(w, chain).len() >= 16,
        type_of(request(w, chain)) == 1,
        status_in(t, chain) == 0,
    ensures
        laws::storage_ok(t.backend),
        forall|i: int|
            0 <= i < w.backend.sectors * 512 ==> #[trigger] laws::storage_byte(
                laws::files_after(f, disk::events(w.backend.log, t.backend.log)),
                t.backend.storage,
                i,
            ) == ({
                let data = request(w, chain);
                if place_of(data) <= i < place_of(data) + data.len() - 16 {
                    data[16 + i - place_of(data)]
                } else {
                    laws::storage_byte(f, w.backend.storage, i)
                }
            }),
        laws::files_after(f, disk::events(w.backend.log, t.backend.log)).base == f.base,
        forall|a: int|
            w.mem.ram.dom().contains(a) && a != chain.writable.last().0
                ==> #[trigger] t.mem.ram[a] == w.mem.ram[a],
{
    let data = request(w, chain);
    let part = data.subrange(16, data.len() as int);
    lemma_le64_bound(data);
    assert(1u32 & !0x8000_0000u32 == 1) by (bit_vector);
    buffers::lemma_gather_len(w.mem.ram, chain.readable);
    let left = lemma_served(w, chain, t, n, part);
    laws::law_write_is_kept(
        f,
        w.backend,
        BlkReqHeader::decoded(data),
        part,
        t.backend,
        left,
    );
    lemma_status(w.mem, chain, 0);
}

/// A write request that lies within a disk that is not read-only is completed with success
/// wherever no operation on a file fails.
pub proof fn law_blk_write_succeeds(w: BlkWork, chain: ChainView, t: BlkWork, n: u32)
    requires
        sound(w, chain),
        laws::storage_ok(w.backend),
        !w.backend.read_only,
        laws::healthy(disk::events(w.backend.log, t.backend.log)),
        blk_transport::chain_served(w, chain, t, Some(n)),
        request(w, chain).len() >= 16,
        type_of(request(w, chain)) == 1,
        laws::in_range(
            w.backend,
            BlkReqHeader::decoded(request(w, chain)),
            request(w, chain).len() - 16,
        ),
    ensures
        status_in(t, chain) == 0,
{
    let data = request(w, chain);
    let part = data.subrange(16, data.len() as int);
    lemma_le64_bound(data);
    assert(1u32 & !0x8000_0000u32 == 1) by (bit_vector);
    let left = lemma_served(w, chain, t, n, part);
    laws::law_request_in_range_succeeds(
        w.backend,
        BlkReqHeader::decoded(data),
        part,
        t.backend,
        left,
        status_in(t, chain),
    );
}

/// The request names bytes that the disk does not have: it counts the whole sectors of its data,
/// and one where there is none, and may not end behind the last byte.
pub open spec fn beyond_the_disk(b: BackendView, data: Seq<u8>, len: int) -> bool {
    ||| bytes::le64_at(data, 8) + (if len < 512 {
        1
    } else {
        len / 512
    }) > b.sectors
    ||| place_of(data) + len > b.sectors * 512
}

/// A read or write that names bytes behind the end of the disk, and a write to a disk that is
/// read-only, is answered with an error: no file is touched, and no disk changes.
pub proof fn law_blk_refusal_touches_no_file(w: BlkWork, chain: ChainView, t: BlkWork, n: u32)
    requires
        sound(w, chain),
        blk_transport::chain_served(w, chain, t, Some(n)),
        request(w, chain).len() >= 16,
        ({
            let data = request(w, chain);
            ||| type_of(data) == 0 && beyond_the_disk(
                w.backend,
                data,
                places::start_of(chain.writable, chain.writable.len() - 1),
            )
            ||| type_of(data) == 1 && (w.backend.read_only || beyond_the_disk(
                w.backend,
                data,
                data.len() - 16,
            ))
        }),
    ensures
        status_in(t, chain) == 1,
        t.backend == w.backend,
{
    let data = request(w, chain);
    let bufs = data_room(chain);
    lemma_data_room(w, chain);
    lemma_room_start(chain.writable);
    places::law_gather_reads_every_byte(w.mem.ram, bufs);
    buffers::lemma_gather_len(w.mem.ram, chain.readable);
    lemma_le64_bound(data);
    assert(0u32 & !0x8000_0000u32 == 0) by (bit_vector);
    assert(1u32 & !0x8000_0000u32 == 1) by (bit_vector);
    if type_of(data) == 0 {
        if buffers::total_len(bufs) == 0 {
            lemma_unasked(w, chain, t, n);
        } else {
            let zeros = Seq::new(buffers::total_len(bufs), |i: int| 0u8);
            let left = lemma_served(w, chain, t, n, zeros);
        }
    } else {
        let left = lemma_served(w, chain, t, n, data.subrange(16, data.len() as int));
    }
}

/// A flush syncs the file that holds what was written, the image or the overlay with its length,
/// once, and succeeds exactly when that did. No memory but the status changes.
pub proof fn law_blk_flush_syncs(w: BlkWork, chain: ChainView, t: BlkWork, n: u32)
    requires
        sound(w, chain),
        blk_transport::chain_served(w, chain, t, Some(n)),
        request(w, chain).len() >= 16,
        type_of(request(w, chain)) == 4,
    ensures
        ({
            let e = disk::events(w.backend.log, t.backend.log);
            &&& e.len() == 1
            &&& e[0].op == (match w.backend.storage {
                StorageView::Raw => DiskOpView::SyncData { file: DiskFile::Image },
                StorageView::Cow { .. } => DiskOpView::SyncAll { file: DiskFile::Overlay },
            })
            &&& status_in(t, chain) == (if e[0].ok() {
                0u8
            } else {
                1u8
            })
        }),
        t.backend.storage == w.backend.storage,
        forall|a: int|
            w.mem.ram.dom().contains(a) && a != chain.writable.last().0
                ==> #[trigger] t.mem.ram[a] == w.mem.ram[a],
{
    lemma_le64_bound(request(w, chain));
    assert(4u32 & !0x8000_0000u32 == 4) by (bit_vector);
    let left = lemma_served(w, chain, t, n, Seq::empty());
    lemma_status(w.mem, chain, status_in(t, chain));
}

/// Byte `i` of the identity of a disk: `vmm-blk`, then zeros.
pub open spec fn identity(i: int) -> u8 {
    if i == 0 {
        118
    } else if i == 1 || i == 2 {
        109
    } else if i == 3 {
        45
    } else if i == 4 {
        98
    } else if i == 5 {
        108
    } else if i == 6 {
        107
    } else {
        0
    }
}

/// A request for the identity of the disk puts its 20 bytes into the buffers, as far as they have
/// room, and succeeds without an operation on a file.
pub proof fn law_blk_identity_is_given(w: BlkWork, chain: ChainView, t: BlkWork, n: u32)
    requires
        sound(w, chain),
        blk_transport::chain_served(w, chain, t, Some(n)),
        request(w, chain).len() >= 16,
        type_of(request(w, chain)) == 8,
    ensures
        status_in(t, chain) == 0,
        t.backend == w.backend,
        forall|k: int, j: int|
            k < chain.writable.len() - 1 && #[trigger] places::is_place(chain.writable, k, j)
                ==> t.mem.ram[chain.writable[k].0 + j] == (if places::start_of(chain.writable, k)
                + j < 20 {
                identity(places::start_of(chain.writable, k) + j)
            } else {
                w.mem.ram[chain.writable[k].0 + j]
            }),
{
    let bufs = data_room(chain);
    lemma_data_room(w, chain);
    lemma_le64_bound(request(w, chain));
    assert(8u32 & !0x8000_0000u32 == 8) by (bit_vector);
    let zeros = Seq::new(20, |i: int| 0u8);
    let left = lemma_served(w, chain, t, n, zeros);
    places::law_scatter_fills_every_buffer(w.mem, bufs, left);
    let replied = buffers::scatter(w.mem, bufs, left);
    buffers::lemma_all_mapped_dom(w.mem.ram, replied.ram, chain.writable);
    lemma_status(replied, chain, status_in(t, chain));
    assert(left.len() == 20);
    assert forall|i: int| 0 <= i < 20 implies left[i] == identity(i) by {}
    assert forall|k: int, j: int|
        k < chain.writable.len() - 1 && #[trigger] places::is_place(
            chain.writable,
            k,
            j,
        ) implies t.mem.ram[chain.writable[k].0 + j] == (if places::start_of(chain.writable, k)
        + j < 20 {
        identity(places::start_of(chain.writable, k) + j)
    } else {
        w.mem.ram[chain.writable[k].0 + j]
    }) by {
        assert(bufs[k] == chain.writable[k]);
        assert(places::is_place(bufs, k, j));
        lemma_same_start(chain.writable, k);
        places::lemma_start_grows(bufs, k, k);
        let a = chain.writable[k].0 + j;
        assert(places::within(chain.writable.last(), chain.writable.last().0 as int));
        assert(guest_memory::is_mapped(w.mem.ram, bufs[k].0 as int, bufs[k].1 as int));
        assert(w.mem.ram.dom().contains(a));
        assert(t.mem.ram[a] == replied.ram[a]);
    }
}

/// A request without a whole header, and a read without room for data, is answered with an error,
/// one of another type than read, write, flush and identity as unsupported. Neither touches a file
/// or any memory but the status.
pub proof fn law_blk_unknown_request_does_nothing(
    w: BlkWork,
    chain: ChainView,
    t: BlkWork,
    n: u32,
)
    requires
        sound(w, chain),
        blk_transport::chain_served(w, chain, t, Some(n)),
        ({
            let data = request(w, chain);
            ||| data.len() < 16
            ||| type_of(data) == 0 && places::start_of(chain.writable, chain.writable.len() - 1) == 0
            ||| type_of(data) != 0 && type_of(data) != 1 && type_of(data) != 4 && type_of(data) != 8
        }),
    ensures
        status_in(t, chain) == (if request(w, chain).len() < 16 || type_of(request(w, chain)) == 0 {
            1u8
        } else {
            2u8
        }),
        t.backend == w.backend,
        forall|a: int|
            w.mem.ram.dom().contains(a) && a != chain.writable.last().0
                ==> #[trigger] t.mem.ram[a] == w.mem.ram[a],
{
    let data = request(w, chain);
    lemma_data_room(w, chain);
    lemma_room_start(chain.writable);
    places::law_gather_reads_every_byte(w.mem.ram, data_room(chain));
    if data.len() >= 16 {
        lemma_le64_bound(data);
    }
    lemma_unasked(w, chain, t, n);
}

/// Whatever a request changed in guest memory is on the record of dirty pages.
pub proof fn law_blk_request_is_recorded(
    w: BlkWork,
    chain: ChainView,
    t: BlkWork,
    answer: Option<u32>,
)
    requires
        sound(w, chain),
        blk_transport::chain_served(w, chain, t, answer),
    ensures
        places::recorded(w.mem, t.mem),
{
    places::lemma_nothing_recorded(w.mem);
    lemma_data_room(w, chain);
    if let Some(n) = answer {
        let data = request(w, chain);
        match blk_transport::request_buffer(data, chain.writable) {
            None => {
                lemma_status(w.mem, chain, blk_transport::unasked_status(data));
                lemma_unasked(w, chain, t, n);
            },
            Some(buf) => {
                let left = lemma_served(w, chain, t, n, buf);
                let replied = if type_of(data) == 0 || type_of(data) == 8 {
                    buffers::scatter(w.mem, data_room(chain), left)
                } else {
                    w.mem
                };
                places::law_scatter_is_recorded(w.mem, data_room(chain), left);
                buffers::lemma_all_mapped_dom(w.mem.ram, replied.ram, chain.writable);
                lemma_status(replied, chain, status_in(t, chain));
                places::lemma_recorded_on(w.mem, replied, t.mem);
            },
        }
    }
}

/// What the device works on besides memory: the backend and the limiter.
#[verifier::ext_equal]
pub struct Means {
    pub backend: BackendView,
    pub limiter: Option<Buckets>,
}

/// The work that memory and means make up.
pub open spec fn work_of(m: MemState, means: Means) -> BlkWork {
    BlkWork { mem: m, backend: means.backend, limiter: means.limiter }
}

/// How a chain may be taken up, as a step of a pass.
pub open spec fn blk_step() -> ChainStep<Means> {
    |w: Means, m: MemState, chain: ChainView, w2: Means, m2: MemState, answer: Option<u32>|
        blk_transport::chain_served(work_of(m, w), chain, work_of(m2, w2), answer)
}

spec fn as_pass(s: BlkPass) -> Pass<Means> {
    Pass { pass: s.pass, work: Means { backend: s.backend, limiter: s.limiter } }
}

proof fn lemma_as_device_pass(config: QueueConfig, target: u16, s: BlkPass, t: BlkPass)
    requires
        blk_transport::blk_pass(config, target, s, t),
    ensures
        vqueue::device_pass(blk_step(), config, target, as_pass(s), as_pass(t)),
    decreases vqueue::idx_distance(s.pass.avail, target),
{
    let k = s.skipped(config, target);
    vqueue::lemma_skip_rejected(s.pass.mem.ram, config, s.pass.avail, target);
    let step = blk_step();
    let dk = as_pass(s).skipped(config, target);
    assert(dk == as_pass(k));
    if k.pass.avail != target {
        let head = vqueue::avail_head(k.pass.mem.ram, config, k.pass.avail);
        let chain = vqueue::chain_from(k.pass.mem.ram, config, head)->0;
        let (w, answer) = choose|w: BlkWork, answer: Option<u32>|
            #[trigger] blk_transport::chain_served(k.work(), chain, w, answer) && match answer {
                None => t == k.with_work(w),
                Some(len) => blk_transport::blk_pass(
                    config,
                    target,
                    k.with_work(w).completed(config, head, len),
                    t,
                ),
            };
        let means = Means { backend: w.backend, limiter: w.limiter };
        assert(work_of(dk.pass.mem, dk.work) == k.work());
        assert(work_of(w.mem, means) == w);
        assert(step(dk.work, dk.pass.mem, chain, means, w.mem, answer));
        assert(dk.worked(means, w.mem) == as_pass(k.with_work(w)));
        match answer {
            None => {},
            Some(len) => {
                let next = k.with_work(w).completed(config, head, len);
                lemma_as_device_pass(config, target, next, t);
                assert(dk.worked(means, w.mem).completed(config, head, len) == as_pass(next));
            },
        }
    }
}

/// In this turn the chain was served, and its buffers are mapped.
pub open spec fn is_served(turn: Turn<Means>) -> bool {
    let w = work_of(turn.at.pass.mem, turn.at.work);
    &&& blk_transport::chain_served(w, turn.chain, work_of(turn.mem, turn.work), turn.answer)
    &&& places::apart(turn.chain.writable) && turn.chain.writable.len() > 0
        && turn.chain.writable.last().1 > 0 ==> sound(w, turn.chain)
}

proof fn lemma_is_served(config: QueueConfig, target: u16, from: Pass<Means>, turn: Turn<Means>)
    requires
        trace_laws::reaches(config, target, from, turn),
        blk_step()(
            turn.at.work,
            turn.at.pass.mem,
            turn.chain,
            turn.work,
            turn.mem,
            turn.answer,
        ),
    ensures
        is_served(turn),
{
    vqueue::lemma_chain_buffers(turn.at.pass.mem.ram, config, turn.head);
}

/// A kick of the queue works through it chain by chain, from where the device stood to the index
/// that the guest has set. Each chain is served, from the device as the one before it left it, and
/// its buffers are mapped; the device then stands where the pass ended. The guest is interrupted
/// where at least one chain went back, and nothing else of the device changes.
#[verifier::spinoff_prover]
#[verifier::rlimit(60)]
pub proof fn law_blk_kick_serves_every_chain(s: BlkMmioView, t: BlkMmioView) -> (r: (
    Seq<Pass<Means>>,
    Seq<Turn<Means>>,
    Pass<Means>,
))
    requires
        blk_transport::blk_kicked(s, t),
        s.can_process(),
        s.backend is Some,
        vqueue::queue_usable(s.ram->0, s.queues[0].config()),
    ensures
        ({
            let config = s.queues[0].config();
            let target = trace_laws::word16(s.ram->0, config.avail_ring_addr + 2) as u16;
            let (states, turns, end) = r;
            &&& trace_laws::starts_at(s.processor, s.ram->0, s.dirty, states[0].pass)
            &&& states[0].work == Means { backend: s.backend->0, limiter: s.limiter }
            &&& trace_laws::in_turn(blk_step(), config, target, states, turns)
            &&& forall|i: int| 0 <= i < turns.len() ==> is_served(#[trigger] turns[i])
            &&& trace_laws::ends(config, target, states, turns, end)
            &&& trace_laws::is_over(config, end.pass, t.processor, t.ram->0, t.dirty)
            &&& t.backend == Some(end.work.backend)
            &&& t.limiter == end.work.limiter
            &&& if end.pass.done > 0 {
                &&& t.regs == TransportRegs {
                    interrupt_status: s.regs.interrupt_status | 1,
                    ..s.regs
                }
                &&& t.pending_irqs == (s.pending_irqs + 1) % 0x1_0000_0000_0000_0000
            } else {
                t.regs == s.regs && t.pending_irqs == s.pending_irqs
            }
            &&& t == BlkMmioView {
                backend: t.backend,
                limiter: t.limiter,
                processor: t.processor,
                ram: t.ram,
                dirty: t.dirty,
                regs: t.regs,
                pending_irqs: t.pending_irqs,
                ..s
            }
            &&& t.ram is Some
            &&& t.dirty is Some == s.dirty is Some
        }),
{
    let config = s.queues[0].config();
    trace_laws::law_rings_stand_in_memory(s.ram->0, config, 0);
    let target = vqueue::avail_ring_idx(s.ram->0, config);
    let w = choose|w: BlkPass|
        #[trigger] blk_transport::blk_pass(config, target, s.pass_start(), w) && t
            == s.pass_finished(w);
    lemma_as_device_pass(config, target, s.pass_start(), w);
    let step = blk_step();
    let (states, turns) = trace_laws::law_pass_goes_in_turn(
        step,
        config,
        target,
        as_pass(s.pass_start()),
        as_pass(w),
    );
    assert forall|i: int| 0 <= i < turns.len() implies is_served(#[trigger] turns[i]) by {
        lemma_is_served(config, target, states[i], turns[i]);
    }
    trace_laws::lemma_is_over(
        config,
        w.pass,
        vqueue::used_idx_stored(w.pass.mem, config, w.pass.used),
    );
    (states, turns, as_pass(w))
}

/// A kick without memory, without a ready queue of a valid size, without a backend or with a queue
/// that is not mapped changes nothing but the processor that was set up for the queue.
pub proof fn law_blk_kick_without_a_queue_does_nothing(s: BlkMmioView, t: BlkMmioView)
    requires
        blk_transport::blk_kicked(s, t),
        !s.can_process() || s.backend is None || !vqueue::queue_usable(
            s.ram->0,
            s.queues[0].config(),
        ),
    ensures
        t == (BlkMmioView { processor: t.processor, ..s }),
{
}

/// The work of a device with this memory, tracker, backend and limiter.
pub open spec fn work_in<IO>(
    mem: GuestMemoryMmap,
    dirty: SoftwareDirtyBitmap,
    backend: BlkBackend<IO>,
    limiter: Option<RateLimiter>,
) -> BlkWork {
    BlkWork {
        mem: buffers::mem_state(mem, dirty),
        backend: backend@,
        limiter: rate_limit::limiter_view(limiter),
    }
}

/// A call of `serve_chain` with a read that the guest finds completed with success has filled every
/// buffer in front of the status with the bytes of the disk, to its end.
pub(super) proof fn law_serve_chain_fills_every_buffer<IO: Fn(DiskOp) -> Option<Vec<u8>>>(
    f: DiskFiles,
    chain: &DescriptorChain,
    n: u32,
)
    ensures
        forall|
            mem: &mut GuestMemoryMmap,
            dirty: &mut SoftwareDirtyBitmap,
            backend: &mut BlkBackend<IO>,
            limiter: &mut Option<RateLimiter>,
        |
            {
                let w = work_in(*mem, *dirty, *backend, *limiter);
                let t = work_in(*final(mem), *final(dirty), *final(backend), *final(limiter));
                &&& #[trigger] call_ensures(
                    VirtioBlkMmio::<IO>::serve_chain,
                    (mem, dirty, backend, limiter, chain),
                    Some(n),
                )
                &&& sound(w, chain@)
                &&& laws::storage_ok(w.backend)
                &&& laws::truthful(f, disk::events(w.backend.log, t.backend.log))
                &&& request(w, chain@).len() >= 16
                &&& type_of(request(w, chain@)) == 0
                &&& status_in(t, chain@) == 0
            } ==> forall|k: int, j: int|
                k < chain.writable@.len() - 1 && #[trigger] places::is_place(chain.writable@, k, j)
                    ==> guest_memory::guest_bytes(*final(mem))[chain.writable@[k].0 + j]
                    == laws::storage_byte(
                    f,
                    (*backend)@.storage,
                    place_of(buffers::gather(guest_memory::guest_bytes(*mem), chain.readable@))
                        + places::start_of(chain.writable@, k) + j,
                ),
{
    assert forall|
        mem: &mut GuestMemoryMmap,
        dirty: &mut SoftwareDirtyBitmap,
        backend: &mut BlkBackend<IO>,
        limiter: &mut Option<RateLimiter>,
    |
        {
            let w = work_in(*mem, *dirty, *backend, *limiter);
            let t = work_in(*final(mem), *final(dirty), *final(backend), *final(limiter));
            &&& #[trigger] call_ensures(
                VirtioBlkMmio::<IO>::serve_chain,
                (mem, dirty, backend, limiter, chain),
                Some(n),
            )
            &&& sound(w, chain@)
            &&& laws::storage_ok(w.backend)
            &&& laws::truthful(f, disk::events(w.backend.log, t.backend.log))
            &&& request(w, chain@).len() >= 16
            &&& type_of(request(w, chain@)) == 0
            &&& status_in(t, chain@) == 0
        } implies forall|k: int, j: int|
        k < chain.writable@.len() - 1 && #[trigger] places::is_place(chain.writable@, k, j)
            ==> guest_memory::guest_bytes(*final(mem))[chain.writable@[k].0 + j]
            == laws::storage_byte(
            f,
            (*backend)@.storage,
            place_of(buffers::gather(guest_memory::guest_bytes(*mem), chain.readable@))
                + places::start_of(chain.writable@, k) + j,
        ) by {
        let w = work_in(*mem, *dirty, *backend, *limiter);
        let t = work_in(*final(mem), *final(dirty), *final(backend), *final(limiter));
        assert(blk_transport::chain_served(w, chain@, t, Some(n)));
        law_blk_read_fills_every_buffer(f, w, chain@, t, n);
    }
}

/// A call of `serve_chain` is the service that the laws above speak of, and one of
/// [`VirtioBlkMmio::process_queue`] the kick.
pub(super) proof fn law_blk_calls_are_passes<IO: Fn(DiskOp) -> Option<Vec<u8>>>(
    chain: &DescriptorChain,
    answer: Option<u32>,
    queue: u32,
)
    ensures
        forall|
            mem: &mut GuestMemoryMmap,
            dirty: &mut SoftwareDirtyBitmap,
            backend: &mut BlkBackend<IO>,
            limiter: &mut Option<RateLimiter>,
        |
            #[trigger] call_ensures(
                VirtioBlkMmio::<IO>::serve_chain,
                (mem, dirty, backend, limiter, chain),
                answer,
            ) ==> blk_transport::chain_served(
                work_in(*mem, *dirty, *backend, *limiter),
                chain@,
                work_in(*final(mem), *final(dirty), *final(backend), *final(limiter)),
                answer,
            ),
        forall|d: &mut VirtioBlkMmio<IO>|
            #[trigger] call_ensures(VirtioBlkMmio::<IO>::process_queue, (d, queue), ())
                ==> blk_transport::blk_kicked((*d)@, (*final(d))@),
        forall|b: &mut BlkBackend<IO>, h: &BlkReqHeader, data: &mut Vec<u8>, st: u8|
            #[trigger] call_ensures(BlkBackend::<IO>::service, (b, h, data), st)
                ==> blk_backend::service_runs(
                (*b)@,
                *h,
                (*data)@,
                (*final(b))@,
                (*final(data))@,
                st,
            ),
{
}

} // verus!
