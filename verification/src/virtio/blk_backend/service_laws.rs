//! How requests are judged, what reaches stable storage, and how an overlay is laid out.
use crate::bytes;
use crate::virtio::blk::{BlkParseError, BlkReqHeader};
use crate::virtio::blk_backend::disk::{self, DiskEvent, DiskOpView};
use crate::virtio::blk_backend::laws;
use crate::virtio::blk_backend::{
    self, BackendView, BlkBackendError, CowHeader, CowOverlay, CowStep, DiskFile, StorageView,
    ValidationError,
};
use vstd::prelude::*;

verus! {

/// The operation that a request asks for: its type without the highest bit.
pub open spec fn operation(h: BlkReqHeader) -> int {
    if h.req_type >= 0x8000_0000 {
        h.req_type - 0x8000_0000
    } else {
        h.req_type as int
    }
}

proof fn lemma_operation(h: BlkReqHeader)
    ensures
        blk_backend::request_op(h) == operation(h),
        blk_backend::request_fua(h) == (h.req_type >= 0x8000_0000),
{
    let x = h.req_type;
    assert(x >= 0x8000_0000 ==> x & !0x8000_0000u32 == x - 0x8000_0000 && x & 0x8000_0000u32 != 0)
        by (bit_vector);
    assert(x < 0x8000_0000 ==> x & !0x8000_0000u32 == x && x & 0x8000_0000u32 == 0)
        by (bit_vector);
}

/// A request passes exactly where its operation is known and it lies within the device, to the
/// byte where it reads or writes. It is then placed at the first byte of its sector.
pub proof fn law_service_request_is_judged(h: BlkReqHeader, len: int, sectors: u64)
    requires
        0 <= len <= u64::MAX,
    ensures
        ({
            let op = operation(h);
            let known = op == 0 || op == 1 || op == 4 || op == 8 || op == 11 || op == 13;
            let n = if len >= 512 {
                len / 512
            } else {
                1
            };
            let r = blk_backend::service_validated(h, len, sectors);
            &&& op == 4 || op == 8 ==> r == Ok::<(u32, u64, bool), ValidationError>(
                (op as u32, 0u64, h.req_type >= 0x8000_0000),
            )
            &&& !known ==> r == Err::<(u32, u64, bool), ValidationError>(
                ValidationError::Request(BlkParseError::UnknownReqType(op as u32)),
            )
            &&& op == 0 || op == 1 ==> (r is Ok <==> {
                &&& h.sector + n <= sectors
                &&& h.sector * 512 + len <= sectors * 512
                &&& sectors * 512 <= u64::MAX
            })
            &&& (op == 0 || op == 1) && r is Ok ==> r == Ok::<(u32, u64, bool), ValidationError>(
                (op as u32, (h.sector * 512) as u64, h.req_type >= 0x8000_0000),
            )
            &&& (op == 0 || op == 1) && h.sector + n <= sectors && sectors * 512 <= u64::MAX && r
                is Err ==> r == Err::<(u32, u64, bool), ValidationError>(
                if h.sector * 512 + len > u64::MAX {
                    ValidationError::RequestEndOverflows
                } else {
                    ValidationError::RequestPastEnd {
                        end: (h.sector * 512 + len) as u64,
                        device_len: (sectors * 512) as u64,
                    }
                },
            )
        }),
{
    lemma_operation(h);
}

/// A request that does not pass, and one whose operation is known but not offered, touches no file
/// and leaves its buffer: the first is answered with an error, the second as unsupported.
pub proof fn law_unserved_request_does_nothing(
    before: BackendView,
    h: BlkReqHeader,
    data: Seq<u8>,
    after: BackendView,
    left: Seq<u8>,
    st: u8,
)
    requires
        blk_backend::service_runs(before, h, data, after, left, st),
    ensures
        blk_backend::service_validated(h, data.len() as int, before.sectors) is Err ==> after
            == before && left == data && st == 1,
        blk_backend::service_validated(h, data.len() as int, before.sectors) is Ok && (operation(h)
            == 11 || operation(h) == 13) ==> after == before && left == data && st == 2,
{
    lemma_operation(h);
}

/// A request for the identity gives its 20 bytes, `vmm-blk` and zeros, or as many as the buffer
/// has room for. What is behind them in the buffer stays, and no file is touched.
pub proof fn law_identity_fills_the_buffer(
    before: BackendView,
    h: BlkReqHeader,
    data: Seq<u8>,
    after: BackendView,
    left: Seq<u8>,
    st: u8,
)
    requires
        blk_backend::service_runs(before, h, data, after, left, st),
        operation(h) == 8,
    ensures
        st == 0,
        after == before,
        left.len() == data.len(),
        forall|i: int|
            0 <= i < left.len() ==> #[trigger] left[i] == (if i == 0 {
                118u8
            } else if i == 1 || i == 2 {
                109
            } else if i == 3 {
                45
            } else if i == 4 {
                98
            } else if i == 5 {
                108
            } else if i == 6 {
                107
            } else if i < 20 {
                0
            } else {
                data[i]
            }),
{
    lemma_operation(h);
    let n = if data.len() < 20 {
        data.len() as int
    } else {
        20
    };
    let part = blk_backend::serial_string().take(n);
    assert(part.len() == n);
    assert forall|i: int| 0 <= i < n implies #[trigger] part[i]
        == blk_backend::serial_string()[i] by {}
}

/// The operation makes what was written to a file stable.
pub open spec fn is_sync(op: DiskOpView) -> bool {
    op is SyncData || op is SyncAll
}

/// A write that asks for stable storage and succeeds ends with a sync of the file that was written,
/// which succeeded; all that was written comes before. A write that does not ask for it makes no
/// sync.
pub proof fn law_stable_write_is_synced(
    before: BackendView,
    h: BlkReqHeader,
    data: Seq<u8>,
    after: BackendView,
    left: Seq<u8>,
)
    requires
        blk_backend::service_runs(before, h, data, after, left, 0),
        operation(h) == 1,
    ensures
        ({
            let t = disk::events(before.log, after.log);
            &&& left == data
            &&& if h.req_type >= 0x8000_0000 {
                &&& t.len() > 0
                &&& t.last().ok()
                &&& t.last().op == (match before.storage {
                    StorageView::Raw => DiskOpView::SyncData { file: DiskFile::Image },
                    StorageView::Cow { .. } => DiskOpView::SyncAll { file: DiskFile::Overlay },
                })
                &&& forall|i: int| 0 <= i < t.len() - 1 ==> !is_sync((#[trigger] t[i]).op)
            } else {
                forall|i: int| 0 <= i < t.len() ==> !is_sync((#[trigger] t[i]).op)
            }
        }),
{
    lemma_operation(h);
    let t = disk::events(before.log, after.log);
    let offset = h.sector * 512;
    let fua = h.req_type >= 0x8000_0000;
    law_service_request_is_judged(h, data.len() as int, before.sectors);
    let r = choose|r: Result<(), BlkBackendError>|
        #[trigger] blk_backend::storage_writes(
            before.storage,
            offset,
            data,
            fua,
            t,
            after.storage,
            r,
        ) && left == data && 0 == blk_backend::status_of(r);
    match before.storage {
        StorageView::Raw => {
            reveal_with_fuel(disk::ops_ran, 3);
        },
        StorageView::Cow { header, bitmap } => {
            let steps = blk_backend::write_steps(header, bitmap, offset, data.len() as int, 0);
            let all = blk_backend::request_steps(header, bitmap, offset, data.len() as int, fua);
            let b2 = after.storage->bitmap;
            lemma_no_sync_among(header, bitmap, offset, data.len() as int, 0);
            if fua {
                assert(all.drop_last() =~= steps);
                lemma_steps_end_in_sync(bitmap, all, data, t, b2);
            } else {
                lemma_steps_without_sync(bitmap, all, data, t, b2);
            }
        },
    }
}

proof fn lemma_no_sync_among(
    header: CowHeader,
    bitmap: Seq<u8>,
    offset: int,
    total: int,
    start: int,
)
    ensures
        forall|i: int|
            0 <= i < blk_backend::write_steps(header, bitmap, offset, total, start).len() ==> !(
            #[trigger] blk_backend::write_steps(header, bitmap, offset, total, start)[i] is Sync),
    decreases total - start,
{
    let steps = blk_backend::write_steps(header, bitmap, offset, total, start);
    if start < total {
        let pos = offset + start;
        let n = blk_backend::segment_len(pos, total - start);
        if !(n <= 0 || header.data_offset + pos > u64::MAX) {
            let block = pos / 512;
            let next = if blk_backend::bit_set(bitmap, block) {
                bitmap
            } else {
                blk_backend::with_bit(bitmap, block)
            };
            lemma_no_sync_among(header, next, offset, total, start + n);
            let first = blk_backend::segment_steps(header, bitmap, pos, n, start);
            let rest = blk_backend::write_steps(header, next, offset, total, start + n);
            assert(steps == first + rest);
            assert forall|i: int| 0 <= i < steps.len() implies !(#[trigger] steps[i] is Sync) by {
                if i >= first.len() {
                    assert(steps[i] == rest[i - first.len()]);
                } else {
                    assert(steps[i] == first[i]);
                }
            }
        }
    }
}

proof fn lemma_steps_without_sync(
    bitmap: Seq<u8>,
    steps: Seq<CowStep>,
    data: Seq<u8>,
    t: Seq<DiskEvent>,
    after: Seq<u8>,
)
    requires
        blk_backend::steps_ran(bitmap, steps, data, t, after, None),
        forall|i: int| 0 <= i < steps.len() ==> !(#[trigger] steps[i] is Sync),
    ensures
        forall|i: int| 0 <= i < t.len() ==> !is_sync((#[trigger] t[i]).op),
    decreases steps.len(),
{
    if steps.len() > 0 {
        let n = blk_backend::step_events(steps[0], t);
        let rest = steps.skip(1);
        assert forall|i: int| 0 <= i < rest.len() implies !(#[trigger] rest[i] is Sync) by {
            assert(rest[i] == steps[i + 1]);
        }
        lemma_steps_without_sync(
            blk_backend::marked(bitmap, steps[0]),
            rest,
            data,
            t.skip(n),
            after,
        );
        assert forall|i: int| 0 <= i < t.len() implies !is_sync((#[trigger] t[i]).op) by {
            if i < n {
                assert(t.take(n)[i] == t[i]);
            } else {
                assert(t.skip(n)[i - n] == t[i]);
            }
        }
    }
}

proof fn lemma_steps_end_in_sync(
    bitmap: Seq<u8>,
    steps: Seq<CowStep>,
    data: Seq<u8>,
    t: Seq<DiskEvent>,
    after: Seq<u8>,
)
    requires
        blk_backend::steps_ran(bitmap, steps, data, t, after, None),
        steps.len() > 0,
        steps.last() is Sync,
        forall|i: int| 0 <= i < steps.len() - 1 ==> !(#[trigger] steps[i] is Sync),
    ensures
        t.len() > 0,
        t.last().ok(),
        t.last().op == (DiskOpView::SyncAll { file: DiskFile::Overlay }),
        forall|i: int| 0 <= i < t.len() - 1 ==> !is_sync((#[trigger] t[i]).op),
    decreases steps.len(),
{
    let n = blk_backend::step_events(steps[0], t);
    let rest = steps.skip(1);
    assert(t.take(n).len() == n);
    if steps.len() == 1 {
        assert(blk_backend::steps_ran(
            blk_backend::marked(bitmap, steps[0]),
            rest,
            data,
            t.skip(n),
            after,
            None,
        ));
        assert(t.skip(n).len() == 0);
        assert(t.take(n)[0] == t[0]);
    } else {
        assert forall|i: int| 0 <= i < rest.len() - 1 implies !(#[trigger] rest[i] is Sync) by {
            assert(rest[i] == steps[i + 1]);
        }
        assert(rest.last() == steps.last());
        lemma_steps_end_in_sync(
            blk_backend::marked(bitmap, steps[0]),
            rest,
            data,
            t.skip(n),
            after,
        );
        assert(t.skip(n).last() == t.last());
        assert(!(steps[0] is Sync));
        assert forall|i: int| 0 <= i < t.len() - 1 implies !is_sync((#[trigger] t[i]).op) by {
            if i < n {
                assert(t.take(n)[i] == t[i]);
            } else {
                assert(t.skip(n)[i - n] == t[i]);
            }
        }
    }
}

/// The 32-bit integer at offset `i`, least significant byte first.
pub open spec fn int32(b: Seq<u8>, i: int) -> int {
    b[i] + 256 * b[i + 1] + 65536 * b[i + 2] + 16777216 * b[i + 3]
}

/// The 64-bit integer at offset `i`, least significant byte first.
pub open spec fn int64(b: Seq<u8>, i: int) -> int {
    int32(b, i) + 4294967296 * int32(b, i + 4)
}

/// The bytes start with `VMMCOW1` and a zero.
pub open spec fn has_magic(b: Seq<u8>) -> bool {
    &&& b[0] == 86
    &&& b[1] == 77
    &&& b[2] == 77
    &&& b[3] == 67
    &&& b[4] == 79
    &&& b[5] == 87
    &&& b[6] == 49
    &&& b[7] == 0
}

/// The bytes hold the header: the magic, version 1, blocks of 512 bytes, and its fields.
pub open spec fn holds_header(b: Seq<u8>, h: CowHeader) -> bool {
    &&& has_magic(b)
    &&& int32(b, 8) == 1
    &&& int32(b, 12) == 512
    &&& int64(b, 16) == h.base_len
    &&& int64(b, 24) == h.blocks
    &&& int64(b, 32) == h.bitmap_offset
    &&& int64(b, 40) == h.bitmap_len
    &&& int64(b, 48) == h.data_offset
}

/// The header of an overlay is read where its 4096 bytes start with the magic, the version and the
/// block size that are supported; its fields are those that stand there. Each refusal says what is
/// wrong.
pub proof fn law_overlay_header_is_read(b: Seq<u8>)
    ensures
        ({
            let r = CowHeader::decoded(b);
            &&& r is Ok <==> b.len() >= 4096 && has_magic(b) && int32(b, 8) == 1 && int32(b, 12)
                == 512
            &&& r matches Ok(h) ==> holds_header(b, h)
            &&& r == Err::<CowHeader, ValidationError>(ValidationError::HeaderTruncated)
                <==> b.len() < 4096
            &&& r == Err::<CowHeader, ValidationError>(ValidationError::MagicMismatch) <==> b.len()
                >= 4096 && !has_magic(b)
        }),
{
    if b.len() >= 4096 {
        let m = b.subrange(0, 8);
        assert(m[0] == b[0] && m[1] == b[1] && m[2] == b[2] && m[3] == b[3]);
        assert(m[4] == b[4] && m[5] == b[5] && m[6] == b[6] && m[7] == b[7]);
        if has_magic(b) {
            assert(m =~= blk_backend::cow_magic());
        }
        if m == blk_backend::cow_magic() {
            assert(m[0] == 86 && m[1] == 77 && m[2] == 77 && m[3] == 67);
            assert(m[4] == 79 && m[5] == 87 && m[6] == 49 && m[7] == 0);
        }
        lemma_int32(b, 8);
        lemma_int32(b, 12);
        lemma_int64(b, 16);
        lemma_int64(b, 24);
        lemma_int64(b, 32);
        lemma_int64(b, 40);
        lemma_int64(b, 48);
    }
}

proof fn lemma_int32(b: Seq<u8>, i: int)
    requires
        0 <= i,
        i + 4 <= b.len(),
    ensures
        bytes::le32_at(b, i) == int32(b, i),
        0 <= int32(b, i) <= u32::MAX,
{
    bytes::lemma_le32_stands(b, i);
}

proof fn lemma_int64(b: Seq<u8>, i: int)
    requires
        0 <= i,
        i + 8 <= b.len(),
    ensures
        bytes::le64_at(b, i) == int64(b, i),
        0 <= int64(b, i) <= u64::MAX,
{
    bytes::lemma_le64_stands(b, i);
}

/// The header of an overlay is stored in 4096 bytes: the magic, the version, the block size and its
/// fields, then zeros.
pub proof fn law_overlay_header_is_stored(h: CowHeader)
    ensures
        h.encoded().len() == 4096,
        holds_header(h.encoded(), h),
        forall|i: int| 56 <= i < 4096 ==> #[trigger] h.encoded()[i] == 0,
{
    laws::law_cow_header_round_trip(h);
    law_overlay_header_is_read(h.encoded());
    assert(h.encoded_fields().len() == 56);
}

/// An overlay has room for a header, then one bit for each block and no byte more than that takes,
/// then, from the next multiple of 512 on, all the blocks of its base.
pub proof fn law_overlay_is_laid_out(blocks: u64)
    ensures
        CowHeader::laid_out(blocks) is Ok <==> blocks * 512 <= u64::MAX,
        CowHeader::laid_out(blocks) matches Ok(h) ==> {
            &&& h.blocks == blocks
            &&& h.base_len == blocks * 512
            &&& h.bitmap_offset == 4096
            &&& blocks <= 8 * h.bitmap_len < blocks + 8
            &&& h.data_offset % 512 == 0
            &&& 4096 + h.bitmap_len <= h.data_offset < 4096 + h.bitmap_len + 512
        },
{
    if blocks * 512 <= u64::MAX {
        let n = blk_backend::bitmap_bytes(blocks as int);
        let d = blk_backend::aligned_up(4096 + n, 512);
        assert(d == ((4096 + n + 511) / 512) * 512);
        assert(d % 512 == 0);
    }
}

/// Each block has one bit of its own in the bitmap: eight to a byte, the lowest bit first. Marking
/// a block sets its bit and no other.
pub proof fn law_block_has_its_bit(bitmap: Seq<u8>, block: int, other: int)
    requires
        0 <= block < 8 * bitmap.len(),
        0 <= other < 8 * bitmap.len(),
    ensures
        blk_backend::bit_set(bitmap, block) <==> (bitmap[block / 8] / weight(block % 8)) % 2 == 1,
        blk_backend::with_bit(bitmap, block).len() == bitmap.len(),
        blk_backend::bit_set(blk_backend::with_bit(bitmap, block), other) <==> other == block
            || blk_backend::bit_set(bitmap, other),
{
    let x = bitmap[block / 8];
    let k = (block % 8) as u8;
    lemma_bit(x, k);
    lemma_mask(block % 8);
    lemma_mask(other % 8);
    let y = bitmap[other / 8];
    let j = (other % 8) as u8;
    assert(k < 8 && j < 8 ==> ((y | (1u8 << k)) & (1u8 << j) != 0 <==> j == k || y & (1u8 << j)
        != 0)) by (bit_vector);
    let w = blk_backend::with_bit(bitmap, block);
    if other / 8 == block / 8 {
        assert(w[other / 8] == x | blk_backend::bit_mask(block % 8));
        assert(j == k <==> other == block);
    } else {
        assert(w[other / 8] == y);
    }
}

/// What bit `k` of a byte counts.
pub open spec fn weight(k: int) -> u8 {
    if k == 0 {
        1
    } else if k == 1 {
        2
    } else if k == 2 {
        4
    } else if k == 3 {
        8
    } else if k == 4 {
        16
    } else if k == 5 {
        32
    } else if k == 6 {
        64
    } else {
        128
    }
}

proof fn lemma_mask(k: int)
    requires
        0 <= k < 8,
    ensures
        blk_backend::bit_mask(k) == 1u8 << (k as u8),
        blk_backend::bit_mask(k) == weight(k),
{
    assert(1u8 << 0u8 == 1 && 1u8 << 1u8 == 2 && 1u8 << 2u8 == 4 && 1u8 << 3u8 == 8 && 1u8 << 4u8
        == 16 && 1u8 << 5u8 == 32 && 1u8 << 6u8 == 64 && 1u8 << 7u8 == 128) by (bit_vector);
}

proof fn lemma_bit(x: u8, k: u8)
    requires
        k < 8,
    ensures
        x & (1u8 << k) != 0 <==> (x / weight(k as int)) % 2 == 1,
{
    assert((x & (1u8 << 0u8) != 0 <==> (x / 1) % 2 == 1) && (x & (1u8 << 1u8) != 0 <==> (x / 2) % 2
        == 1) && (x & (1u8 << 2u8) != 0 <==> (x / 4) % 2 == 1) && (x & (1u8 << 3u8) != 0 <==> (x
        / 8) % 2 == 1) && (x & (1u8 << 4u8) != 0 <==> (x / 16) % 2 == 1) && (x & (1u8 << 5u8) != 0
        <==> (x / 32) % 2 == 1) && (x & (1u8 << 6u8) != 0 <==> (x / 64) % 2 == 1) && (x & (1u8
        << 7u8) != 0 <==> (x / 128) % 2 == 1)) by (bit_vector);
}

/// An overlay is opened only over the base that it was made for. One with any bytes but too few for
/// a header is refused without a look; any other is read, and opened exactly where its header is
/// the one that the base calls for and its bitmap marks no block that the base has not.
pub proof fn law_overlay_is_opened_over_its_base(
    overlay_len: u64,
    blocks: u64,
    t: Seq<DiskEvent>,
    r: Result<CowOverlay, BlkBackendError>,
)
    requires
        blk_backend::cow_opens(overlay_len, blocks, t, r),
        blocks * 512 <= u64::MAX,
        overlay_len > 0,
    ensures
        overlay_len < 4096 ==> t.len() == 0 && r == Err::<CowOverlay, BlkBackendError>(
            BlkBackendError::Validation(ValidationError::OverlayTooSmall),
        ),
        overlay_len >= 4096 ==> t.len() >= 1 && t[0].op == (DiskOpView::Read {
            file: DiskFile::Overlay,
            offset: 0,
            len: 4096,
        }),
        r matches Ok(cow) ==> {
            let h = CowHeader::laid_out(blocks)->Ok_0;
            &&& overlay_len >= 4096
            &&& t.len() == 2
            &&& t[0].bytes_read() matches Some(b) && holds_header(b, h)
            &&& t[1].op == (DiskOpView::Read {
                file: DiskFile::Overlay,
                offset: 4096,
                len: h.bitmap_len as int,
            })
            &&& t[1].bytes_read() == Some(cow.bitmap@)
            &&& cow.header == h
            &&& forall|x: int|
                blocks <= x < 8 * cow.bitmap@.len() ==> !#[trigger] blk_backend::bit_set(
                    cow.bitmap@,
                    x,
                )
        },
        r == Err::<CowOverlay, BlkBackendError>(BlkBackendError::Io) ==> exists|i: int|
            0 <= i < t.len() && (#[trigger] t[i]).bytes_read() is None,
{
    law_overlay_is_laid_out(blocks);
    if overlay_len >= 4096 {
        if let Some(b) = t[0].bytes_read() {
            law_overlay_header_is_read(b);
            let rest = t.skip(1);
            if rest.len() > 0 {
                assert(rest[0] == t[1]);
            }
            if r == Err::<CowOverlay, BlkBackendError>(BlkBackendError::Io) {
                assert(t[1].bytes_read() is None);
            }
        } else {
            assert(t[0].bytes_read() is None);
        }
    }
}

} // verus!
