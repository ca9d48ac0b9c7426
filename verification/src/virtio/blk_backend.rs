//! virtio-blk backend: services requests against a disk image, or against a copy-on-write
//! overlay over a read-only base image.
//!
//! The backend decides which bytes of which file are read or written; its [`Disk`] performs these
//! operations and keeps the record of them.
use crate::bytes::{self, push_all, push_le32, push_le64, read_le32, read_le64, zeros};
use crate::virtio::blk::{self, req_type, status, validate_req, BlkParseError, BlkReqHeader};
use vstd::prelude::*;
use vstd::slice::slice_subrange;

pub mod disk;
pub mod laws;
pub mod service_laws;

pub use disk::{Disk, DiskFile, DiskOp};

use disk::{DiskEvent, DiskOpView};

verus! {

pub const SECTOR_SIZE: u64 = 512;

/// The flag in a request's type that asks for the data to be on stable storage when the
/// request completes.
pub const VIRTIO_BLK_T_BARRIER: u32 = 0x8000_0000;

pub const COW_VERSION: u32 = 1;

pub const COW_HEADER_LEN: usize = 4096;

/// Why a request or an overlay is refused.
#[derive(Debug, Copy, Clone, PartialEq, Eq, Structural)]
pub enum ValidationError {
    BitmapLengthOverflows,
    BaseLengthOverflows,
    HeaderTruncated,
    MagicMismatch,
    UnsupportedVersion(u32),
    UnsupportedBlockSize(u32),
    OverlayTooSmall,
    BaseLengthMismatch { actual: u64, expected: u64 },
    LayoutMismatch,
    LengthDoesNotFit,
    BitsBeyondBase,
    Request(BlkParseError),
    DeviceLengthOverflows,
    RequestEndOverflows,
    RequestPastEnd { end: u64, device_len: u64 },
    OffsetOverflows,
}

/// Errors of the block backend.
#[derive(Debug, Copy, Clone, PartialEq, Eq, Structural)]
pub enum BlkBackendError {
    Io,
    Validation(ValidationError),
    NotOpen,
}

/// Copy-on-write overlay layout:
///
/// ```text
/// 0x0000..0x1000  4096-byte header
///                 magic[8] = "VMMCOW1\0"
///                 version u32 = 1
///                 block_size u32 = 512
///                 base_len u64 = usable base bytes
///                 blocks u64 = base_len / 512
///                 bitmap_offset u64
///                 bitmap_len u64
///                 data_offset u64
/// header..data    bitmap, one bit per 512-byte sector
/// data_offset..   sparse overlay data, block N at data_offset + N * 512
/// ```
///
/// A dirty bitmap bit means reads for that sector come from the overlay. Clear bits fall
/// through to the read-only base image. Partial first writes copy the base sector into the
/// overlay before applying the guest bytes.
#[derive(Debug, Copy, Clone, PartialEq, Eq, Structural)]
pub struct CowHeader {
    pub base_len: u64,
    pub blocks: u64,
    pub bitmap_offset: u64,
    pub bitmap_len: u64,
    pub data_offset: u64,
}

/// "VMMCOW1" and a zero byte.
pub open spec fn cow_magic() -> Seq<u8> {
    seq![0x56u8, 0x4d, 0x4d, 0x43, 0x4f, 0x57, 0x31, 0x00]
}

/// The bytes of a bitmap with one bit per block.
pub open spec fn bitmap_bytes(blocks: int) -> int {
    (blocks + 7) / 8
}

/// The first multiple of `align` from `value` on.
pub open spec fn aligned_up(value: int, align: int) -> int {
    ((value + align - 1) / align) * align
}

impl CowHeader {
    /// The layout of an overlay over `blocks` blocks.
    pub open spec fn laid_out(blocks: u64) -> Result<CowHeader, ValidationError> {
        if blocks + 7 > u64::MAX {
            Err(ValidationError::BitmapLengthOverflows)
        } else if blocks * 512 > u64::MAX {
            Err(ValidationError::BaseLengthOverflows)
        } else {
            Ok(
                CowHeader {
                    base_len: (blocks * 512) as u64,
                    blocks,
                    bitmap_offset: 4096,
                    bitmap_len: bitmap_bytes(blocks as int) as u64,
                    data_offset: aligned_up(4096 + bitmap_bytes(blocks as int), 512) as u64,
                },
            )
        }
    }

    /// The bytes of the header that carry its fields.
    pub open spec fn encoded_fields(self) -> Seq<u8> {
        cow_magic() + bytes::le32_bytes(1) + bytes::le32_bytes(512) + bytes::le64_bytes(
            self.base_len as int,
        ) + bytes::le64_bytes(self.blocks as int) + bytes::le64_bytes(self.bitmap_offset as int)
            + bytes::le64_bytes(self.bitmap_len as int) + bytes::le64_bytes(self.data_offset as int)
    }

    /// The 4096 bytes of the header: its fields, padded with zeros.
    pub open spec fn encoded(self) -> Seq<u8> {
        self.encoded_fields() + Seq::new(4040, |i: int| 0u8)
    }

    /// What a header's bytes say, or why they are refused.
    pub open spec fn decoded(b: Seq<u8>) -> Result<CowHeader, ValidationError> {
        if b.len() < 4096 {
            Err(ValidationError::HeaderTruncated)
        } else if b.subrange(0, 8) != cow_magic() {
            Err(ValidationError::MagicMismatch)
        } else if bytes::le32_at(b, 8) != 1 {
            Err(ValidationError::UnsupportedVersion(bytes::le32_at(b, 8) as u32))
        } else if bytes::le32_at(b, 12) != 512 {
            Err(ValidationError::UnsupportedBlockSize(bytes::le32_at(b, 12) as u32))
        } else {
            Ok(
                CowHeader {
                    base_len: bytes::le64_at(b, 16) as u64,
                    blocks: bytes::le64_at(b, 24) as u64,
                    bitmap_offset: bytes::le64_at(b, 32) as u64,
                    bitmap_len: bytes::le64_at(b, 40) as u64,
                    data_offset: bytes::le64_at(b, 48) as u64,
                },
            )
        }
    }

    pub fn new(blocks: u64) -> (r: Result<Self, BlkBackendError>)
        ensures
            r == (match CowHeader::laid_out(blocks) {
                Ok(h) => Ok::<CowHeader, BlkBackendError>(h),
                Err(e) => Err(BlkBackendError::Validation(e)),
            }),
    {
        let bitmap_len: u64 = match bitmap_len(blocks) {
            Ok(n) => n,
            Err(e) => {
                return Err(e);
            },
        };
        let data_offset: u64 = match align_up(4096 + bitmap_len, SECTOR_SIZE) {
            Ok(n) => n,
            Err(e) => {
                return Err(e);
            },
        };
        match blocks.checked_mul(SECTOR_SIZE) {
            Some(base_len) => Ok(
                CowHeader { base_len, blocks, bitmap_offset: 4096, bitmap_len, data_offset },
            ),
            None => Err(BlkBackendError::Validation(ValidationError::BaseLengthOverflows)),
        }
    }

    pub fn encode(self) -> (b: Vec<u8>)
        ensures
            b@ == self.encoded(),
            b@.len() == COW_HEADER_LEN,
    {
        let mut buf: Vec<u8> = vec![0x56, 0x4d, 0x4d, 0x43, 0x4f, 0x57, 0x31, 0x00];
        assert(buf@ =~= cow_magic());
        push_le32(&mut buf, COW_VERSION);
        push_le32(&mut buf, 512);
        push_le64(&mut buf, self.base_len);
        push_le64(&mut buf, self.blocks);
        push_le64(&mut buf, self.bitmap_offset);
        push_le64(&mut buf, self.bitmap_len);
        push_le64(&mut buf, self.data_offset);
        assert(buf@ =~= self.encoded_fields());
        let pad = zeros(4040);
        push_all(&mut buf, pad.as_slice());
        buf
    }

    pub fn decode(buf: &[u8]) -> (r: Result<Self, BlkBackendError>)
        ensures
            r == (match CowHeader::decoded(buf@) {
                Ok(h) => Ok::<CowHeader, BlkBackendError>(h),
                Err(e) => Err(BlkBackendError::Validation(e)),
            }),
    {
        if buf.len() < COW_HEADER_LEN {
            return Err(BlkBackendError::Validation(ValidationError::HeaderTruncated));
        }
        let same = buf[0] == 0x56 && buf[1] == 0x4d && buf[2] == 0x4d && buf[3] == 0x43 && buf[4]
            == 0x4f && buf[5] == 0x57 && buf[6] == 0x31 && buf[7] == 0x00;
        assert(same == (buf@.subrange(0, 8) == cow_magic())) by {
            let m = buf@.subrange(0, 8);
            assert(m.len() == 8);
            if same {
                assert(m =~= cow_magic());
            }
            if m == cow_magic() {
                assert(m[0] == 0x56 && m[1] == 0x4d && m[2] == 0x4d && m[3] == 0x43 && m[4] == 0x4f
                    && m[5] == 0x57 && m[6] == 0x31 && m[7] == 0x00);
            }
        }
        if !same {
            return Err(BlkBackendError::Validation(ValidationError::MagicMismatch));
        }
        let version: u32 = read_le32(buf, 8);
        if version != COW_VERSION {
            return Err(BlkBackendError::Validation(ValidationError::UnsupportedVersion(version)));
        }
        let block_size: u32 = read_le32(buf, 12);
        if block_size != 512 {
            return Err(
                BlkBackendError::Validation(ValidationError::UnsupportedBlockSize(block_size)),
            );
        }
        Ok(
            CowHeader {
                base_len: read_le64(buf, 16),
                blocks: read_le64(buf, 24),
                bitmap_offset: read_le64(buf, 32),
                bitmap_len: read_le64(buf, 40),
                data_offset: read_le64(buf, 48),
            },
        )
    }
}

/// The length of a bitmap with one bit per block.
pub fn bitmap_len(blocks: u64) -> (r: Result<u64, BlkBackendError>)
    ensures
        r == (if blocks + 7 > u64::MAX {
            Err::<u64, BlkBackendError>(
                BlkBackendError::Validation(ValidationError::BitmapLengthOverflows),
            )
        } else {
            Ok(bitmap_bytes(blocks as int) as u64)
        }),
{
    match blocks.checked_add(7) {
        Some(n) => Ok(n / 8),
        None => Err(BlkBackendError::Validation(ValidationError::BitmapLengthOverflows)),
    }
}

/// The first multiple of `align` from `value` on.
pub fn align_up(value: u64, align: u64) -> (r: Result<u64, BlkBackendError>)
    requires
        align > 0,
    ensures
        r == (if value + align - 1 > u64::MAX {
            Err::<u64, BlkBackendError>(BlkBackendError::Validation(ValidationError::OffsetOverflows))
        } else {
            Ok(aligned_up(value as int, align as int) as u64)
        }),
{
    match value.checked_add(align - 1) {
        Some(v) => {
            assert((v as int / align as int) * align <= v) by (nonlinear_arith)
                requires
                    align > 0,
            ;
            Ok((v / align) * align)
        },
        None => Err(BlkBackendError::Validation(ValidationError::OffsetOverflows)),
    }
}

/// A value of 64 bits as a size on this machine.
pub fn usize_from_u64(value: u64) -> (r: Result<usize, BlkBackendError>)
    ensures
        r == (if value > usize::MAX {
            Err::<usize, BlkBackendError>(
                BlkBackendError::Validation(ValidationError::LengthDoesNotFit),
            )
        } else {
            Ok(value as usize)
        }),
{
    if value <= usize::MAX as u64 {
        Ok(value as usize)
    } else {
        Err(BlkBackendError::Validation(ValidationError::LengthDoesNotFit))
    }
}

/// How a header differs from the layout that its base calls for, if it does.
pub open spec fn header_mismatch(actual: CowHeader, expected: CowHeader) -> Option<
    ValidationError,
> {
    if actual.base_len != expected.base_len {
        Some(
            ValidationError::BaseLengthMismatch {
                actual: actual.base_len,
                expected: expected.base_len,
            },
        )
    } else if actual != expected {
        Some(ValidationError::LayoutMismatch)
    } else {
        None
    }
}

pub fn validate_overlay_header(actual: CowHeader, expected: CowHeader) -> (r: Result<
    (),
    BlkBackendError,
>)
    ensures
        r == (match header_mismatch(actual, expected) {
            None => Ok::<(), BlkBackendError>(()),
            Some(e) => Err(BlkBackendError::Validation(e)),
        }),
{
    if actual.base_len != expected.base_len {
        return Err(
            BlkBackendError::Validation(
                ValidationError::BaseLengthMismatch {
                    actual: actual.base_len,
                    expected: expected.base_len,
                },
            ),
        );
    }
    if actual.blocks != expected.blocks || actual.bitmap_offset != expected.bitmap_offset
        || actual.bitmap_len != expected.bitmap_len || actual.data_offset != expected.data_offset {
        return Err(BlkBackendError::Validation(ValidationError::LayoutMismatch));
    }
    Ok(())
}

/// The bit of a bitmap byte that stands for the block with this remainder modulo 8.
pub open spec fn bit_mask(k: int) -> u8 {
    1u8 << (k as u8)
}

/// Whether the bitmap marks `block` as written.
pub open spec fn bit_set(bitmap: Seq<u8>, block: int) -> bool {
    bitmap[block / 8] & bit_mask(block % 8) != 0
}

/// The bitmap with `block` marked as written.
pub open spec fn with_bit(bitmap: Seq<u8>, block: int) -> Seq<u8> {
    bitmap.update(block / 8, bitmap[block / 8] | bit_mask(block % 8))
}

/// Some bit is set for a block that the base does not have.
pub open spec fn bits_beyond(bitmap: Seq<u8>, blocks: int) -> bool {
    exists|b: int| blocks <= b < 8 * bitmap.len() && #[trigger] bit_set(bitmap, b)
}

/// Refuses a bitmap that marks blocks which the base does not have.
pub fn validate_unused_bitmap_bits(bitmap: &[u8], blocks: u64) -> (r: Result<(), BlkBackendError>)
    requires
        blocks + 7 <= u64::MAX,
        bitmap@.len() == bitmap_bytes(blocks as int),
    ensures
        r == (if bits_beyond(bitmap@, blocks as int) {
            Err::<(), BlkBackendError>(BlkBackendError::Validation(ValidationError::BitsBeyondBase))
        } else {
            Ok(())
        }),
{
    let used: u8 = (blocks % 8) as u8;
    if used == 0 || bitmap.len() == 0 {
        return Ok(());
    }
    let last: u8 = bitmap[bitmap.len() - 1];
    let ghost n = bitmap@.len() - 1;
    assert(1 <= used < 8);
    assert((1u8 << used) >= 1) by (bit_vector)
        requires
            used < 8,
    ;
    let valid_mask: u8 = (1u8 << used) - 1;
    assert((last & !valid_mask != 0) == ((used <= 1 && last & (1u8 << 1u8) != 0) || (used <= 2
        && last & (1u8 << 2u8) != 0) || (used <= 3 && last & (1u8 << 3u8) != 0) || (used <= 4
        && last & (1u8 << 4u8) != 0) || (used <= 5 && last & (1u8 << 5u8) != 0) || (used <= 6
        && last & (1u8 << 6u8) != 0) || (used <= 7 && last & (1u8 << 7u8) != 0))) by (bit_vector)
        requires
            1 <= used < 8,
            valid_mask == (1u8 << used) - 1,
    ;
    assert(blocks as int == 8 * n + used);
    if last & !valid_mask != 0 {
        proof {
            let k: int = if used <= 1 && last & (1u8 << 1u8) != 0 {
                1
            } else if used <= 2 && last & (1u8 << 2u8) != 0 {
                2
            } else if used <= 3 && last & (1u8 << 3u8) != 0 {
                3
            } else if used <= 4 && last & (1u8 << 4u8) != 0 {
                4
            } else if used <= 5 && last & (1u8 << 5u8) != 0 {
                5
            } else if used <= 6 && last & (1u8 << 6u8) != 0 {
                6
            } else {
                7
            };
            assert((8 * n + k) / 8 == n && (8 * n + k) % 8 == k);
            assert(bit_set(bitmap@, 8 * n + k));
        }
        return Err(BlkBackendError::Validation(ValidationError::BitsBeyondBase));
    }
    proof {
        assert forall|b: int| blocks <= b < 8 * bitmap@.len() implies !#[trigger] bit_set(
            bitmap@,
            b,
        ) by {
            let k = b % 8;
            assert(b / 8 == n);
            assert(k == 1 || k == 2 || k == 3 || k == 4 || k == 5 || k == 6 || k == 7);
        }
    }
    Ok(())
}

/// A part of a request that lies within one block.
#[derive(Debug, Copy, Clone, PartialEq, Eq, Structural)]
pub struct BlockSegment {
    pub block: u64,
    pub within_block: usize,
    pub len: usize,
    pub buffer_offset: usize,
}

/// The parts of a request, one block after the other.
#[derive(Debug, Copy, Clone, PartialEq, Eq, Structural)]
pub struct BlockSegments {
    pub next_offset: u64,
    pub remaining: usize,
    pub buffer_offset: usize,
}

/// How many of the `remaining` bytes from `pos` on lie in the block of `pos`.
pub open spec fn segment_len(pos: int, remaining: int) -> int {
    if 512 - pos % 512 < remaining {
        512 - pos % 512
    } else {
        remaining
    }
}

impl BlockSegments {
    pub fn new(offset: u64, len: usize) -> (s: Self)
        ensures
            s == (BlockSegments { next_offset: offset, remaining: len, buffer_offset: 0 }),
    {
        BlockSegments { next_offset: offset, remaining: len, buffer_offset: 0 }
    }

    /// The next part, if any is left.
    pub fn next(&mut self) -> (r: Option<BlockSegment>)
        requires
            old(self).next_offset + old(self).remaining <= u64::MAX,
            old(self).buffer_offset + old(self).remaining <= usize::MAX,
        ensures
            r is None == (old(self).remaining == 0),
            r is None ==> *final(self) == *old(self),
            r matches Some(seg) ==> {
                let n = segment_len(old(self).next_offset as int, old(self).remaining as int);
                &&& seg.block == old(self).next_offset as int / 512
                &&& seg.within_block == old(self).next_offset as int % 512
                &&& seg.len == n
                &&& seg.buffer_offset == old(self).buffer_offset
                &&& final(self).next_offset == old(self).next_offset + n
                &&& final(self).remaining == old(self).remaining - n
                &&& final(self).buffer_offset == old(self).buffer_offset + n
            },
    {
        if self.remaining == 0 {
            return None;
        }
        let block: u64 = self.next_offset / SECTOR_SIZE;
        let within_block: usize = (self.next_offset % SECTOR_SIZE) as usize;
        let room: usize = 512 - within_block;
        let len: usize = if room < self.remaining {
            room
        } else {
            self.remaining
        };
        let segment = BlockSegment { block, within_block, len, buffer_offset: self.buffer_offset };
        self.next_offset = self.next_offset + len as u64;
        self.buffer_offset = self.buffer_offset + len;
        self.remaining = self.remaining - len;
        Some(segment)
    }
}

/// One step of a write to the overlay.
#[derive(Debug, Copy, Clone, PartialEq, Eq, Structural)]
pub enum CowStep {
    /// Copy the block at `source` of the base to `to` of the overlay.
    CopyBlock { source: u64, to: u64 },
    /// Store `len` bytes of the request, from `start` on, at `to` of the overlay.
    Put { to: u64, start: usize, len: usize },
    /// Mark `block` as written and store the bitmap byte that marks it at `at` of the overlay.
    SetBit { block: u64, at: u64, value: u8 },
    /// Bring the overlay to stable storage.
    Sync,
    /// Give up: the place in the overlay lies past the largest offset.
    Reject,
}

/// The steps that a write of the bytes from `start` up to `total` takes, for a request that
/// starts at `offset`.
pub open spec fn write_steps(
    header: CowHeader,
    bitmap: Seq<u8>,
    offset: int,
    total: int,
    start: int,
) -> Seq<CowStep>
    decreases total - start,
{
    if start >= total {
        Seq::empty()
    } else {
        let pos = offset + start;
        let block = pos / 512;
        let n = segment_len(pos, total - start);
        if n <= 0 || header.data_offset + pos > u64::MAX {
            seq![CowStep::Reject]
        } else {
            segment_steps(header, bitmap, pos, n, start) + write_steps(
                header,
                if bit_set(bitmap, block) {
                    bitmap
                } else {
                    with_bit(bitmap, block)
                },
                offset,
                total,
                start + n,
            )
        }
    }
}

/// The steps for `n` bytes from `pos` on, all in one block. A block that is not marked yet is
/// first copied from the base, unless all of it is written.
pub open spec fn segment_steps(
    header: CowHeader,
    bitmap: Seq<u8>,
    pos: int,
    n: int,
    start: int,
) -> Seq<CowStep> {
    let block = pos / 512;
    let put = CowStep::Put {
        to: (header.data_offset + pos) as u64,
        start: start as usize,
        len: n as usize,
    };
    if bit_set(bitmap, block) {
        seq![put]
    } else {
        let mark = CowStep::SetBit {
            block: block as u64,
            at: (header.bitmap_offset + block / 8) as u64,
            value: with_bit(bitmap, block)[block / 8],
        };
        if n == 512 {
            seq![put, mark]
        } else {
            seq![
                CowStep::CopyBlock {
                    source: (block * 512) as u64,
                    to: (header.data_offset + block * 512) as u64,
                },
                put,
                mark,
            ]
        }
    }
}

/// All steps of a write request; the last one is a sync where stable storage is asked for.
pub open spec fn request_steps(
    header: CowHeader,
    bitmap: Seq<u8>,
    offset: int,
    total: int,
    force_unit_access: bool,
) -> Seq<CowStep> {
    let steps = write_steps(header, bitmap, offset, total, 0);
    if force_unit_access {
        steps.push(CowStep::Sync)
    } else {
        steps
    }
}

/// The bitmap after a step was taken up.
pub open spec fn marked(bitmap: Seq<u8>, step: CowStep) -> Seq<u8> {
    match step {
        CowStep::SetBit { block, .. } => with_bit(bitmap, block as int),
        _ => bitmap,
    }
}

/// How many of the events `t` belong to a step that they start with.
pub open spec fn step_events(step: CowStep, t: Seq<DiskEvent>) -> int {
    match step {
        CowStep::CopyBlock { .. } => if t.len() > 0 && t[0].bytes_read() is Some {
            2
        } else {
            1
        },
        CowStep::Reject => 0,
        _ => 1,
    }
}

/// The events `t` are those of a step.
pub open spec fn step_ran(step: CowStep, data: Seq<u8>, t: Seq<DiskEvent>) -> bool {
    match step {
        CowStep::CopyBlock { source, to } => {
            &&& t.len() >= 1
            &&& t[0].op == DiskOpView::Read { file: DiskFile::Base, offset: source as int, len: 512 }
            &&& match t[0].bytes_read() {
                None => t.len() == 1,
                Some(b) => t.len() == 2 && t[1].op == DiskOpView::Write {
                    file: DiskFile::Overlay,
                    offset: to as int,
                    data: b,
                },
            }
        },
        CowStep::Put { to, start, len } => t.len() == 1 && t[0].op == DiskOpView::Write {
            file: DiskFile::Overlay,
            offset: to as int,
            data: data.subrange(start as int, start + len),
        },
        CowStep::SetBit { at, value, .. } => t.len() == 1 && t[0].op == DiskOpView::Write {
            file: DiskFile::Overlay,
            offset: at as int,
            data: seq![value],
        },
        CowStep::Sync => t.len() == 1 && t[0].op == DiskOpView::SyncAll { file: DiskFile::Overlay },
        CowStep::Reject => t.len() == 0,
    }
}

/// A step with the events `t` succeeded.
pub open spec fn step_succeeded(step: CowStep, t: Seq<DiskEvent>) -> bool {
    match step {
        CowStep::CopyBlock { .. } => t.len() == 2 && t[1].ok(),
        CowStep::Reject => false,
        _ => t[0].ok(),
    }
}

/// The events `t` are those of the steps, taken in order up to the first that fails. The bitmap
/// becomes `after`; a step that marks a block marks it even where storing the mark fails.
pub open spec fn steps_ran(
    bitmap: Seq<u8>,
    steps: Seq<CowStep>,
    data: Seq<u8>,
    t: Seq<DiskEvent>,
    after: Seq<u8>,
    failed: Option<CowStep>,
) -> bool
    decreases steps.len(),
{
    if steps.len() == 0 {
        t.len() == 0 && after == bitmap && failed is None
    } else {
        let n = step_events(steps[0], t);
        let next = marked(bitmap, steps[0]);
        &&& n <= t.len()
        &&& step_ran(steps[0], data, t.take(n))
        &&& if step_succeeded(steps[0], t.take(n)) {
            steps_ran(next, steps.skip(1), data, t.skip(n), after, failed)
        } else {
            t.len() == n && after == next && failed == Some(steps[0])
        }
    }
}

/// A write to the overlay with the events `t` ends with `after` as its bitmap and with result `r`.
pub open spec fn cow_write_runs(
    header: CowHeader,
    before: Seq<u8>,
    offset: int,
    data: Seq<u8>,
    force_unit_access: bool,
    t: Seq<DiskEvent>,
    after: Seq<u8>,
    r: Result<(), BlkBackendError>,
) -> bool {
    let steps = request_steps(header, before, offset, data.len() as int, force_unit_access);
    match r {
        Ok(()) => steps_ran(before, steps, data, t, after, None),
        Err(BlkBackendError::Io) => exists|k: int|
            0 <= k < steps.len() && !(steps[k] is Reject) && #[trigger] steps_ran(
                before,
                steps,
                data,
                t,
                after,
                Some(steps[k]),
            ),
        Err(e) => e == BlkBackendError::Validation(ValidationError::OffsetOverflows) && steps_ran(
            before,
            steps,
            data,
            t,
            after,
            Some(CowStep::Reject),
        ),
    }
}

/// Steps that ran and those that follow them ran as one sequence of steps.
proof fn lemma_steps_join(
    bitmap: Seq<u8>,
    first: Seq<CowStep>,
    data: Seq<u8>,
    t1: Seq<DiskEvent>,
    mid: Seq<u8>,
    second: Seq<CowStep>,
    t2: Seq<DiskEvent>,
    after: Seq<u8>,
    failed: Option<CowStep>,
)
    requires
        steps_ran(bitmap, first, data, t1, mid, None),
        steps_ran(mid, second, data, t2, after, failed),
    ensures
        steps_ran(bitmap, first + second, data, t1 + t2, after, failed),
    decreases first.len(),
{
    if first.len() == 0 {
        assert(first + second =~= second);
        assert(t1 + t2 =~= t2);
    } else {
        let n = step_events(first[0], t1);
        let next = marked(bitmap, first[0]);
        lemma_steps_join(next, first.skip(1), data, t1.skip(n), mid, second, t2, after, failed);
        assert((first + second).skip(1) =~= first.skip(1) + second);
        assert((first + second)[0] == first[0]);
        assert((t1 + t2).take(n) =~= t1.take(n));
        assert((t1 + t2).skip(n) =~= t1.skip(n) + t2);
        assert(step_events(first[0], t1 + t2) == n);
    }
}

/// The step behind the first `k` ran.
proof fn lemma_step_more(
    bitmap: Seq<u8>,
    steps: Seq<CowStep>,
    k: int,
    data: Seq<u8>,
    t: Seq<DiskEvent>,
    bits: Seq<u8>,
    own: Seq<DiskEvent>,
)
    requires
        0 <= k < steps.len(),
        steps_ran(bitmap, steps.take(k), data, t, bits, None),
        step_ran(steps[k], data, own),
    ensures
        step_succeeded(steps[k], own) ==> steps_ran(
            bitmap,
            steps.take(k + 1),
            data,
            t + own,
            marked(bits, steps[k]),
            None,
        ),
        !step_succeeded(steps[k], own) ==> steps_ran(
            bitmap,
            steps,
            data,
            t + own,
            marked(bits, steps[k]),
            Some(steps[k]),
        ),
{
    let step = steps[k];
    let n = step_events(step, own);
    assert(n == own.len());
    assert(own.take(n) =~= own);
    assert(own.skip(n) =~= Seq::empty());
    if step_succeeded(step, own) {
        let one = seq![step];
        assert(one.skip(1) =~= Seq::empty());
        assert(steps_ran(marked(bits, step), one.skip(1), data, own.skip(n), marked(bits, step), None));
        assert(steps_ran(bits, one, data, own, marked(bits, step), None));
        lemma_steps_join(bitmap, steps.take(k), data, t, bits, one, own, marked(bits, step), None);
        assert(steps.take(k) + one =~= steps.take(k + 1));
    } else {
        let rest = steps.skip(k);
        assert(rest[0] == step);
        assert(steps_ran(bits, rest, data, own, marked(bits, step), Some(step)));
        lemma_steps_join(
            bitmap,
            steps.take(k),
            data,
            t,
            bits,
            rest,
            own,
            marked(bits, step),
            Some(step),
        );
        assert(steps.take(k) + rest =~= steps);
    }
}

/// `buf` with `part` in place of the bytes from `start` on.
pub open spec fn spliced(buf: Seq<u8>, start: int, part: Seq<u8>) -> Seq<u8> {
    Seq::new(
        buf.len(),
        |i: int|
            if start <= i < start + part.len() {
                part[i - start]
            } else {
                buf[i]
            },
    )
}

/// The file that holds byte `pos` of the device: the overlay where its block is marked as
/// written, else the base.
pub open spec fn source_file(bitmap: Seq<u8>, pos: int) -> DiskFile {
    if bit_set(bitmap, pos / 512) {
        DiskFile::Overlay
    } else {
        DiskFile::Base
    }
}

/// Where in that file the byte stands.
pub open spec fn source_offset(header: CowHeader, bitmap: Seq<u8>, pos: int) -> int {
    if bit_set(bitmap, pos / 512) {
        header.data_offset + pos
    } else {
        pos
    }
}

/// A read through the overlay with the events `t` turns the buffer `before`, filled up to
/// `start`, into `after` with result `r`: block after block comes from the file that holds it.
pub open spec fn cow_read_runs(
    header: CowHeader,
    bitmap: Seq<u8>,
    offset: int,
    start: int,
    before: Seq<u8>,
    t: Seq<DiskEvent>,
    after: Seq<u8>,
    r: Result<(), BlkBackendError>,
) -> bool
    decreases before.len() - start,
{
    if start >= before.len() {
        t.len() == 0 && after == before && r == Ok::<(), BlkBackendError>(())
    } else {
        let pos = offset + start;
        let n = segment_len(pos, before.len() - start);
        let at = source_offset(header, bitmap, pos);
        if n <= 0 || at > u64::MAX {
            t.len() == 0 && after == before && r == Err::<(), BlkBackendError>(
                BlkBackendError::Validation(ValidationError::OffsetOverflows),
            )
        } else {
            let file = source_file(bitmap, pos);
            &&& t.len() >= 1
            &&& t[0].op == DiskOpView::Read { file, offset: at, len: n }
            &&& match t[0].bytes_read() {
                None => t.len() == 1 && after == before && r == Err::<(), BlkBackendError>(
                    BlkBackendError::Io,
                ),
                Some(b) => cow_read_runs(
                    header,
                    bitmap,
                    offset,
                    start + n,
                    spliced(before, start, b),
                    t.skip(1),
                    after,
                    r,
                ),
            }
        }
    }
}

/// The state of a copy-on-write overlay.
pub struct CowOverlay {
    pub bitmap: Vec<u8>,
    pub header: CowHeader,
}

impl CowOverlay {
    /// The header is the layout for its block count, and the bitmap has the length it gives.
    pub open spec fn wf(self) -> bool {
        &&& CowHeader::laid_out(self.header.blocks) == Ok::<CowHeader, ValidationError>(
            self.header,
        )
        &&& self.bitmap@.len() == self.header.bitmap_len
    }

    /// Reads `data` from `offset` of the device on.
    pub fn read_at<IO: Fn(DiskOp) -> Option<Vec<u8>>>(
        &self,
        disk: &mut Disk<IO>,
        offset: u64,
        data: &mut Vec<u8>,
    ) -> (r: Result<(), BlkBackendError>)
        requires
            old(disk).wf(),
            self.wf(),
            offset + old(data)@.len() <= self.header.base_len,
        ensures
            final(disk).wf(),
            final(disk).io() == old(disk).io(),
            final(disk)@ == old(disk)@ + disk::events(old(disk)@, final(disk)@),
            cow_read_runs(
                self.header,
                self.bitmap@,
                offset as int,
                0,
                old(data)@,
                disk::events(old(disk)@, final(disk)@),
                final(data)@,
                r,
            ),
            final(data)@.len() == old(data)@.len(),
    {
        let total: usize = data.len();
        let mut segments = BlockSegments::new(offset, total);
        let ghost before = data@;
        let ghost log = disk@;
        let ghost mut t: Seq<DiskEvent> = Seq::empty();
        proof {
            assert(log + t =~= log);
            assert forall|more: Seq<DiskEvent>, end: Seq<u8>, r: Result<(), BlkBackendError>|
                #[trigger] cow_read_runs(
                    self.header,
                    self.bitmap@,
                    offset as int,
                    0,
                    before,
                    more,
                    end,
                    r,
                ) implies cow_read_runs(
                self.header,
                self.bitmap@,
                offset as int,
                0,
                before,
                t + more,
                end,
                r,
            ) by {
                assert(t + more =~= more);
            }
        }
        loop
            invariant
                disk.wf(),
                disk.io() == old(disk).io(),
                log == old(disk)@,
                disk@ == log + t,
                self.wf(),
                data@.len() == total,
                total == old(data)@.len(),
                before == old(data)@,
                offset + total <= self.header.base_len,
                segments.buffer_offset + segments.remaining == total,
                segments.next_offset == offset + segments.buffer_offset,
                forall|more: Seq<DiskEvent>, end: Seq<u8>, r: Result<(), BlkBackendError>|
                    #[trigger] cow_read_runs(
                        self.header,
                        self.bitmap@,
                        offset as int,
                        segments.buffer_offset as int,
                        data@,
                        more,
                        end,
                        r,
                    ) ==> cow_read_runs(
                        self.header,
                        self.bitmap@,
                        offset as int,
                        0,
                        before,
                        t + more,
                        end,
                        r,
                    ),
            decreases segments.remaining,
        {
            let ghost start = segments.buffer_offset as int;
            let ghost cur = data@;
            let ghost none = Seq::<DiskEvent>::empty();
            assert(t + none =~= t);
            assert(disk::events(log, disk@) =~= t);
            let segment = match segments.next() {
                Some(segment) => segment,
                None => {
                    assert(cow_read_runs(
                        self.header,
                        self.bitmap@,
                        offset as int,
                        start,
                        data@,
                        none,
                        data@,
                        Ok(()),
                    ));
                    return Ok(());
                },
            };
            let ghost pos = offset + start;
            assert(segment.block * 512 + segment.within_block == pos);
            let written = self.is_dirty(segment.block);
            let pos_exec: u64 = segment.block * SECTOR_SIZE + segment.within_block as u64;
            let (file, at) = if written {
                match self.header.data_offset.checked_add(pos_exec) {
                    Some(at) => (DiskFile::Overlay, at),
                    None => {
                        let e = BlkBackendError::Validation(ValidationError::OffsetOverflows);
                        assert(cow_read_runs(
                            self.header,
                            self.bitmap@,
                            offset as int,
                            start,
                            data@,
                            none,
                            data@,
                            Err(e),
                        ));
                        return Err(e);
                    },
                }
            } else {
                (DiskFile::Base, pos_exec)
            };
            let part = disk.read_exact_at(file, at, segment.len);
            let ghost e = disk@.last();
            let ghost one = seq![e];
            assert(disk@ =~= log + (t + one));
            assert(disk::events(log, disk@) =~= t + one);
            assert(segment.len == segment_len(pos, cur.len() - start));
            match part {
                None => {
                    assert(cow_read_runs(
                        self.header,
                        self.bitmap@,
                        offset as int,
                        start,
                        data@,
                        one,
                        data@,
                        Err(BlkBackendError::Io),
                    ));
                    return Err(BlkBackendError::Io);
                },
                Some(part) => {
                    splice(data, segment.buffer_offset, part.as_slice());
                    proof {
                        assert(data@ == spliced(cur, start, part@));
                        assert forall|
                            more: Seq<DiskEvent>,
                            end: Seq<u8>,
                            r: Result<(), BlkBackendError>,
                        |
                            #[trigger] cow_read_runs(
                                self.header,
                                self.bitmap@,
                                offset as int,
                                start + segment.len,
                                data@,
                                more,
                                end,
                                r,
                            ) implies cow_read_runs(
                            self.header,
                            self.bitmap@,
                            offset as int,
                            0,
                            before,
                            (t + one) + more,
                            end,
                            r,
                        ) by {
                            assert((one + more).skip(1) =~= more);
                            assert(cow_read_runs(
                                self.header,
                                self.bitmap@,
                                offset as int,
                                start,
                                cur,
                                one + more,
                                end,
                                r,
                            ));
                            assert((t + one) + more =~= t + (one + more));
                        }
                        t = t + one;
                    }
                },
            }
        }
    }

    /// Whether `block` has been written.
    pub fn is_dirty(&self, block: u64) -> (r: bool)
        requires
            self.wf(),
            block < self.header.blocks,
        ensures
            r == bit_set(self.bitmap@, block as int),
    {
        let len: usize = self.bitmap.len();
        assert(block / 8 < len);
        let byte_idx: usize = (block / 8) as usize;
        let bit: u8 = 1u8 << ((block % 8) as u8);
        self.bitmap[byte_idx] & bit != 0
    }
}

/// The operations that set up an overlay: the header and an all-clear bitmap are stored, and the
/// file ends where the data will start.
pub open spec fn create_ops(header: CowHeader) -> Seq<DiskOpView> {
    seq![
        DiskOpView::Write { file: DiskFile::Overlay, offset: 0, data: header.encoded() },
        DiskOpView::Write {
            file: DiskFile::Overlay,
            offset: header.bitmap_offset as int,
            data: Seq::new(header.bitmap_len as nat, |i: int| 0u8),
        },
        DiskOpView::SetLen { file: DiskFile::Overlay, size: header.data_offset as int },
        DiskOpView::SyncAll { file: DiskFile::Overlay },
    ]
}

/// Setting up an overlay with the events `t` ends with result `r`. A bitmap that does not fit in
/// memory is noticed once the header is stored.
pub open spec fn cow_creates(
    header: CowHeader,
    t: Seq<DiskEvent>,
    r: Result<(), BlkBackendError>,
) -> bool {
    let ops = create_ops(header);
    if header.bitmap_len > usize::MAX {
        &&& disk::ops_ran(ops.take(1), t, t[0].ok())
        &&& r == (if t[0].ok() {
            Err::<(), BlkBackendError>(
                BlkBackendError::Validation(ValidationError::LengthDoesNotFit),
            )
        } else {
            Err(BlkBackendError::Io)
        })
    } else {
        &&& disk::ops_ran(ops, t, r is Ok)
        &&& r is Err ==> r == Err::<(), BlkBackendError>(BlkBackendError::Io)
    }
}

/// Loading the bitmap of an overlay with the header `expected` and the events `t` ends with `r`.
pub open spec fn cow_loads(
    expected: CowHeader,
    t: Seq<DiskEvent>,
    r: Result<CowOverlay, BlkBackendError>,
) -> bool {
    if expected.bitmap_len > usize::MAX {
        t.len() == 0 && r == Err::<CowOverlay, BlkBackendError>(
            BlkBackendError::Validation(ValidationError::LengthDoesNotFit),
        )
    } else {
        &&& t.len() == 1
        &&& t[0].op == DiskOpView::Read {
            file: DiskFile::Overlay,
            offset: expected.bitmap_offset as int,
            len: expected.bitmap_len as int,
        }
        &&& match t[0].bytes_read() {
            None => r == Err::<CowOverlay, BlkBackendError>(BlkBackendError::Io),
            Some(bits) => if bits_beyond(bits, expected.blocks as int) {
                r == Err::<CowOverlay, BlkBackendError>(
                    BlkBackendError::Validation(ValidationError::BitsBeyondBase),
                )
            } else {
                r matches Ok(cow) && cow.bitmap@ == bits && cow.header == expected
            },
        }
    }
}

/// Opening an overlay of `overlay_len` bytes over a base of `blocks` blocks with the events `t`
/// ends with `r`.
pub open spec fn cow_opens(
    overlay_len: u64,
    blocks: u64,
    t: Seq<DiskEvent>,
    r: Result<CowOverlay, BlkBackendError>,
) -> bool {
    match CowHeader::laid_out(blocks) {
        Err(e) => t.len() == 0 && r == Err::<CowOverlay, BlkBackendError>(
            BlkBackendError::Validation(e),
        ),
        Ok(expected) => if overlay_len == 0 {
            ||| exists|e: BlkBackendError|
                #[trigger] cow_creates(expected, t, Err(e)) && r == Err::<
                    CowOverlay,
                    BlkBackendError,
                >(e)
            ||| t.len() >= 4 && cow_creates(expected, t.take(4), Ok(())) && cow_loads(
                expected,
                t.skip(4),
                r,
            )
        } else if overlay_len < 4096 {
            t.len() == 0 && r == Err::<CowOverlay, BlkBackendError>(
                BlkBackendError::Validation(ValidationError::OverlayTooSmall),
            )
        } else {
            &&& t.len() >= 1
            &&& t[0].op == DiskOpView::Read { file: DiskFile::Overlay, offset: 0, len: 4096 }
            &&& match t[0].bytes_read() {
                None => t.len() == 1 && r == Err::<CowOverlay, BlkBackendError>(
                    BlkBackendError::Io,
                ),
                Some(b) => match CowHeader::decoded(b) {
                    Err(e) => t.len() == 1 && r == Err::<CowOverlay, BlkBackendError>(
                        BlkBackendError::Validation(e),
                    ),
                    Ok(header) => match header_mismatch(header, expected) {
                        Some(e) => t.len() == 1 && r == Err::<CowOverlay, BlkBackendError>(
                            BlkBackendError::Validation(e),
                        ),
                        None => cow_loads(expected, t.skip(1), r),
                    },
                },
            }
        },
    }
}

impl CowOverlay {
    /// Opens an overlay of `overlay_len` bytes over a base of `blocks` blocks. One without any
    /// bytes is set up; any other must hold the layout that the base calls for.
    pub fn open<IO: Fn(DiskOp) -> Option<Vec<u8>>>(
        disk: &mut Disk<IO>,
        overlay_len: u64,
        blocks: u64,
    ) -> (r: Result<CowOverlay, BlkBackendError>)
        requires
            old(disk).wf(),
        ensures
            final(disk).wf(),
            final(disk).io() == old(disk).io(),
            final(disk)@ == old(disk)@ + disk::events(old(disk)@, final(disk)@),
            cow_opens(overlay_len, blocks, disk::events(old(disk)@, final(disk)@), r),
            r matches Ok(cow) ==> cow.wf() && cow.header.blocks == blocks,
    {
        let ghost log = disk@;
        assert(disk::events(log, log) =~= Seq::empty());
        assert(log + Seq::<DiskEvent>::empty() =~= log);
        let expected = match CowHeader::new(blocks) {
            Ok(h) => h,
            Err(e) => {
                return Err(e);
            },
        };
        let header = if overlay_len == 0 {
            match Self::create(disk, expected) {
                Ok(()) => {},
                Err(e) => {
                    assert(cow_creates(expected, disk::events(log, disk@), Err(e)));
                    return Err(e);
                },
            }
            expected
        } else {
            if overlay_len < 4096 {
                return Err(BlkBackendError::Validation(ValidationError::OverlayTooSmall));
            }
            let head = disk.read_exact_at(DiskFile::Overlay, 0, COW_HEADER_LEN);
            assert(disk::events(log, disk@) =~= seq![disk@.last()]);
            match head {
                Some(buf) => match CowHeader::decode(buf.as_slice()) {
                    Ok(h) => h,
                    Err(e) => {
                        return Err(e);
                    },
                },
                None => {
                    return Err(BlkBackendError::Io);
                },
            }
        };
        let ghost opened = disk::events(log, disk@);
        assert(disk@ == log + opened);
        match validate_overlay_header(header, expected) {
            Ok(()) => {},
            Err(e) => {
                return Err(e);
            },
        }
        let len: usize = match usize_from_u64(header.bitmap_len) {
            Ok(n) => n,
            Err(e) => {
                assert(opened.skip(1) =~= Seq::empty());
                return Err(e);
            },
        };
        let bits = disk.read_exact_at(DiskFile::Overlay, header.bitmap_offset, len);
        let ghost last = seq![disk@.last()];
        assert(disk@ =~= log + (opened + last));
        assert(disk::events(log, disk@) =~= opened + last);
        assert((opened + last).take(opened.len() as int) =~= opened);
        assert((opened + last).skip(opened.len() as int) =~= last);
        match bits {
            Some(bitmap) => match validate_unused_bitmap_bits(bitmap.as_slice(), header.blocks) {
                Ok(()) => Ok(CowOverlay { bitmap, header }),
                Err(e) => Err(e),
            },
            None => Err(BlkBackendError::Io),
        }
    }

    /// Sets up an empty overlay.
    fn create<IO: Fn(DiskOp) -> Option<Vec<u8>>>(disk: &mut Disk<IO>, header: CowHeader) -> (r:
        Result<(), BlkBackendError>)
        requires
            old(disk).wf(),
        ensures
            final(disk).wf(),
            final(disk).io() == old(disk).io(),
            final(disk)@ == old(disk)@ + disk::events(old(disk)@, final(disk)@),
            cow_creates(header, disk::events(old(disk)@, final(disk)@), r),
            r is Ok ==> disk::events(old(disk)@, final(disk)@).len() == 4,
    {
        let ghost log = disk@;
        let ghost ops = create_ops(header);
        proof {
            reveal_with_fuel(disk::ops_ran, 5);
            assert(ops.skip(1).skip(1) =~= ops.skip(2));
            assert(ops.skip(2).skip(1) =~= ops.skip(3));
            assert(ops.skip(3).skip(1) =~= Seq::empty());
            assert(ops.take(1).skip(1) =~= Seq::empty());
        }
        let op = DiskOp::Write { file: DiskFile::Overlay, offset: 0, data: header.encode() };
        assert(op@ == ops[0]);
        let ok = disk.perform(op);
        let ghost t1 = seq![disk@.last()];
        assert(disk@ =~= log + t1);
        assert(disk::events(log, disk@) =~= t1);
        assert(t1.skip(1) =~= Seq::empty());
        if !ok {
            return Err(BlkBackendError::Io);
        }
        let len: usize = match usize_from_u64(header.bitmap_len) {
            Ok(n) => n,
            Err(e) => {
                return Err(e);
            },
        };
        let op = DiskOp::Write {
            file: DiskFile::Overlay,
            offset: header.bitmap_offset,
            data: zeros(len),
        };
        assert(op@ == ops.skip(1)[0]);
        let ok = disk.perform(op);
        let ghost t2 = t1.push(disk@.last());
        assert(disk@ =~= log + t2);
        assert(disk::events(log, disk@) =~= t2);
        assert(t2.skip(1).skip(1) =~= Seq::empty());
        if !ok {
            assert(disk::ops_ran(ops.skip(1), t2.skip(1), false));
            return Err(BlkBackendError::Io);
        }
        let op = DiskOp::SetLen { file: DiskFile::Overlay, size: header.data_offset };
        assert(op@ == ops.skip(2)[0]);
        let ok = disk.perform(op);
        let ghost t3 = t2.push(disk@.last());
        assert(disk@ =~= log + t3);
        assert(disk::events(log, disk@) =~= t3);
        assert(t3.skip(1).skip(1) =~= t3.skip(2));
        if !ok {
            assert(disk::ops_ran(ops.skip(2), t3.skip(2), false));
            assert(disk::ops_ran(ops.skip(1), t3.skip(1), false));
            return Err(BlkBackendError::Io);
        }
        let op = DiskOp::SyncAll { file: DiskFile::Overlay };
        assert(op@ == ops.skip(3)[0]);
        let ok = disk.perform(op);
        let ghost t4 = t3.push(disk@.last());
        assert(disk@ =~= log + t4);
        assert(disk::events(log, disk@) =~= t4);
        assert(t4.skip(1).skip(1) =~= t4.skip(2));
        assert(t4.skip(2).skip(1) =~= t4.skip(3));
        assert(t4.skip(3).skip(1) =~= Seq::empty());
        assert(disk::ops_ran(ops.skip(3), t4.skip(3), ok));
        assert(disk::ops_ran(ops.skip(2), t4.skip(2), ok));
        assert(disk::ops_ran(ops.skip(1), t4.skip(1), ok));
        if ok {
            Ok(())
        } else {
            Err(BlkBackendError::Io)
        }
    }

    /// Writes `data` at `offset` of the device into the overlay.
    #[verifier::spinoff_prover]
    #[verifier::rlimit(60)]
    pub fn write_at<IO: Fn(DiskOp) -> Option<Vec<u8>>>(
        &mut self,
        disk: &mut Disk<IO>,
        offset: u64,
        data: &[u8],
        force_unit_access: bool,
    ) -> (r: Result<(), BlkBackendError>)
        requires
            old(disk).wf(),
            old(self).wf(),
            offset + data@.len() <= old(self).header.base_len,
        ensures
            final(self).wf(),
            final(self).header == old(self).header,
            final(disk).wf(),
            final(disk).io() == old(disk).io(),
            final(disk)@ == old(disk)@ + disk::events(old(disk)@, final(disk)@),
            cow_write_runs(
                old(self).header,
                old(self).bitmap@,
                offset as int,
                data@,
                force_unit_access,
                disk::events(old(disk)@, final(disk)@),
                final(self).bitmap@,
                r,
            ),
    {
        let total: usize = data.len();
        let mut segments = BlockSegments::new(offset, total);
        let ghost header = self.header;
        let ghost before = self.bitmap@;
        let ghost log = disk@;
        let ghost writes = write_steps(header, before, offset as int, total as int, 0);
        let ghost steps = request_steps(
            header,
            before,
            offset as int,
            total as int,
            force_unit_access,
        );
        let ghost mut k: int = 0;
        let ghost mut t: Seq<DiskEvent> = Seq::empty();
        assert(writes.skip(0) =~= writes);
        assert(steps.take(0) =~= Seq::empty());
        assert(log + t =~= log);
        loop
            invariant_except_break
                offset + total <= header.base_len,
                segments.buffer_offset + segments.remaining == total,
                segments.next_offset == offset + segments.buffer_offset,
                writes.skip(k) == write_steps(
                    header,
                    self.bitmap@,
                    offset as int,
                    total as int,
                    segments.buffer_offset as int,
                ),
            invariant
                disk.wf(),
                disk.io() == old(disk).io(),
                log == old(disk)@,
                disk@ == log + t,
                data@.len() == total,
                self.wf(),
                self.header == header,
                header == old(self).header,
                before == old(self).bitmap@,
                writes == write_steps(header, before, offset as int, total as int, 0),
                steps == request_steps(
                    header,
                    before,
                    offset as int,
                    total as int,
                    force_unit_access,
                ),
                0 <= k <= writes.len(),
                steps_ran(before, steps.take(k), data@, t, self.bitmap@, None),
            ensures
                k == writes.len(),
            decreases segments.remaining,
        {
            let ghost start = segments.buffer_offset as int;
            let ghost pos = offset + start;
            let ghost bits = self.bitmap@;
            let ghost rest = writes.skip(k);
            let ghost k0 = k;
            let segment = match segments.next() {
                Some(segment) => segment,
                None => {
                    assert(rest.len() == 0);
                    break;
                },
            };
            let ghost n = segment.len as int;
            assert(segment.block * 512 + segment.within_block == pos);
            assert(segment.block == pos / 512);
            let dirty = self.is_dirty(segment.block);
            let block_start: u64 = segment.block * SECTOR_SIZE;
            let dst_offset: u64 = match self.header.data_offset.checked_add(
                block_start + segment.within_block as u64,
            ) {
                Some(at) => at,
                None => {
                    proof {
                        assert(rest =~= seq![CowStep::Reject]);
                        assert(writes[k] == rest[0]);
                        assert(steps[k] == writes[k]);
                        let none = Seq::<DiskEvent>::empty();
                        lemma_step_more(before, steps, k, data@, t, bits, none);
                        assert(t + none =~= t);
                        assert(disk::events(log, disk@) =~= t);
                    }
                    return Err(BlkBackendError::Validation(ValidationError::OffsetOverflows));
                },
            };
            let ghost seg = segment_steps(header, bits, pos, n, start);
            let ghost later = write_steps(
                header,
                if dirty {
                    bits
                } else {
                    with_bit(bits, pos / 512)
                },
                offset as int,
                total as int,
                start + n,
            );
            assert(rest == seg + later);
            assert forall|i: int| 0 <= i < seg.len() implies steps[k0 + i] == seg[i] by {
                assert(rest[i] == seg[i]);
                assert(writes[k0 + i] == rest[i]);
            }
            assert(k0 + seg.len() <= writes.len());
            if !dirty && segment.len != 512 {
                assert(steps[k0] == seg[0]);
                let copied = Self::copy_base_block(
                    disk,
                    block_start,
                    dst_offset - segment.within_block as u64,
                );
                proof {
                    let own = disk::events(log + t, disk@);
                    lemma_step_more(before, steps, k, data@, t, bits, own);
                    t = t + own;
                    assert(disk@ =~= log + t);
                    assert(disk::events(log, disk@) =~= t);
                    k = k0 + 1;
                }
                if !copied {
                    return Err(BlkBackendError::Io);
                }
            }
            let part = slice_subrange(data, segment.buffer_offset, segment.buffer_offset + segment.len);
            let mut copy: Vec<u8> = Vec::new();
            push_all(&mut copy, part);
            assert(copy@ =~= data@.subrange(start, start + n));
            assert(steps[k] == seg[k - k0]);
            let put = disk.perform(
                DiskOp::Write { file: DiskFile::Overlay, offset: dst_offset, data: copy },
            );
            let ghost put_at = k;
            proof {
                let own = seq![disk@.last()];
                lemma_step_more(before, steps, k, data@, t, bits, own);
                t = t + own;
                assert(disk@ =~= log + t);
                assert(disk::events(log, disk@) =~= t);
                k = k + 1;
            }
            if !put {
                assert(steps[put_at] is Put);
                return Err(BlkBackendError::Io);
            }
            if !dirty {
                assert(steps[k] == seg[k - k0]);
                let stored = self.mark_dirty(disk, segment.block);
                let ghost mark_at = k;
                proof {
                    let own = seq![disk@.last()];
                    lemma_step_more(before, steps, k, data@, t, bits, own);
                    t = t + own;
                    assert(disk@ =~= log + t);
                    assert(disk::events(log, disk@) =~= t);
                    k = k + 1;
                }
                if !stored {
                    assert(steps[mark_at] is SetBit);
                    return Err(BlkBackendError::Io);
                }
            }
            assert(k == k0 + seg.len());
            assert(rest.skip(seg.len() as int) =~= later);
            assert(writes.skip(k) =~= rest.skip(seg.len() as int));
        }
        assert(disk::events(log, disk@) =~= t);
        if force_unit_access {
            let ghost bits = self.bitmap@;
            assert(steps[k] == CowStep::Sync);
            let r = self.flush(disk);
            proof {
                let own = disk::events(log + t, disk@);
                lemma_step_more(before, steps, k, data@, t, bits, own);
                assert(steps.take(k + 1) =~= steps);
                assert(disk@ =~= log + (t + own));
                assert(disk::events(log, disk@) =~= t + own);
            }
            return r;
        }
        assert(steps.take(k) =~= steps);
        Ok(())
    }

    /// Copies the block at `source` of the base to `to` of the overlay.
    fn copy_base_block<IO: Fn(DiskOp) -> Option<Vec<u8>>>(
        disk: &mut Disk<IO>,
        source: u64,
        to: u64,
    ) -> (ok: bool)
        requires
            old(disk).wf(),
        ensures
            final(disk).wf(),
            final(disk).io() == old(disk).io(),
            final(disk)@ == old(disk)@ + disk::events(old(disk)@, final(disk)@),
            forall|data: Seq<u8>|
                #[trigger] step_ran(
                    CowStep::CopyBlock { source, to },
                    data,
                    disk::events(old(disk)@, final(disk)@),
                ),
            ok == step_succeeded(
                CowStep::CopyBlock { source, to },
                disk::events(old(disk)@, final(disk)@),
            ),
    {
        let ghost log = disk@;
        let read = disk.read_exact_at(DiskFile::Base, source, 512);
        let ghost t1 = seq![disk@.last()];
        assert(disk@ =~= log + t1);
        assert(disk::events(log, disk@) =~= t1);
        match read {
            None => false,
            Some(block) => {
                let ok = disk.perform(
                    DiskOp::Write { file: DiskFile::Overlay, offset: to, data: block },
                );
                let ghost t2 = t1.push(disk@.last());
                assert(disk@ =~= log + t2);
                assert(disk::events(log, disk@) =~= t2);
                ok
            },
        }
    }

    /// Marks `block` as written and stores the bitmap byte that marks it.
    fn mark_dirty<IO: Fn(DiskOp) -> Option<Vec<u8>>>(&mut self, disk: &mut Disk<IO>, block: u64)
        -> (ok: bool)
        requires
            old(disk).wf(),
            old(self).wf(),
            block < old(self).header.blocks,
        ensures
            final(self).wf(),
            final(self).header == old(self).header,
            final(self).bitmap@ == with_bit(old(self).bitmap@, block as int),
            final(disk).wf(),
            final(disk).io() == old(disk).io(),
            final(disk)@ == old(disk)@.push(final(disk)@.last()),
            final(disk)@.last().op == (DiskOpView::Write {
                file: DiskFile::Overlay,
                offset: old(self).header.bitmap_offset + block / 8,
                data: seq![with_bit(old(self).bitmap@, block as int)[block as int / 8]],
            }),
            ok == final(disk)@.last().ok(),
    {
        let len: usize = self.bitmap.len();
        assert(block / 8 < len);
        let byte_idx: usize = (block / 8) as usize;
        let bit: u8 = 1u8 << ((block % 8) as u8);
        let value: u8 = self.bitmap[byte_idx] | bit;
        self.bitmap.set(byte_idx, value);
        let data: Vec<u8> = vec![value];
        assert(data@ =~= seq![value]);
        disk.perform(
            DiskOp::Write {
                file: DiskFile::Overlay,
                offset: self.header.bitmap_offset + block / 8,
                data,
            },
        )
    }

    /// Brings the overlay to stable storage.
    pub fn flush<IO: Fn(DiskOp) -> Option<Vec<u8>>>(&self, disk: &mut Disk<IO>) -> (r: Result<
        (),
        BlkBackendError,
    >)
        requires
            old(disk).wf(),
        ensures
            final(disk).wf(),
            final(disk).io() == old(disk).io(),
            final(disk)@ == old(disk)@ + disk::events(old(disk)@, final(disk)@),
            flush_runs(
                DiskOpView::SyncAll { file: DiskFile::Overlay },
                disk::events(old(disk)@, final(disk)@),
                r,
            ),
    {
        let ghost log = disk@;
        let ok = disk.perform(DiskOp::SyncAll { file: DiskFile::Overlay });
        assert(disk@ =~= log + seq![disk@.last()]);
        assert(disk::events(log, disk@) =~= seq![disk@.last()]);
        if ok {
            Ok(())
        } else {
            Err(BlkBackendError::Io)
        }
    }
}

/// A sync with the event `t` ends with result `r`.
pub open spec fn flush_runs(
    op: DiskOpView,
    t: Seq<DiskEvent>,
    r: Result<(), BlkBackendError>,
) -> bool {
    &&& t.len() == 1
    &&& t[0].op == op
    &&& r == (if t[0].ok() {
        Ok::<(), BlkBackendError>(())
    } else {
        Err(BlkBackendError::Io)
    })
}

/// Puts `part` in place of the bytes from `start` on.
fn splice(buf: &mut Vec<u8>, start: usize, part: &[u8])
    requires
        start + part@.len() <= old(buf)@.len(),
    ensures
        final(buf)@ == spliced(old(buf)@, start as int, part@),
{
    let mut i: usize = 0;
    let len: usize = buf.len();
    while i < part.len()
        invariant
            i <= part@.len(),
            start + part@.len() <= len,
            len == buf@.len(),
            buf@ == spliced(old(buf)@, start as int, part@.take(i as int)),
            buf@.len() == old(buf)@.len(),
        decreases part@.len() - i,
    {
        buf.set(start + i, part[i]);
        i += 1;
        assert(buf@ =~= spliced(old(buf)@, start as int, part@.take(i as int)));
    }
    assert(part@.take(i as int) =~= part@);
}

/// What a backend keeps its data in.
pub enum BackendStorage {
    /// A disk image.
    Raw,
    /// A base image under an overlay.
    Cow(CowOverlay),
}

/// What a [`BackendStorage`] holds.
#[verifier::ext_equal]
pub enum StorageView {
    Raw,
    Cow { header: CowHeader, bitmap: Seq<u8> },
}

/// A file-backed virtio-blk backend. Services read/write/flush requests against a disk image or
/// a copy-on-write overlay over a read-only base.
pub struct BlkBackend<IO> {
    pub disk: Disk<IO>,
    pub storage: BackendStorage,
    pub read_only: bool,
    pub sectors: u64,
}

/// The state of a [`BlkBackend`].
#[verifier::ext_equal]
pub struct BackendView {
    /// Every operation on the files, oldest first.
    pub log: Seq<DiskEvent>,
    pub storage: StorageView,
    pub read_only: bool,
    pub sectors: u64,
}

impl<IO> View for BlkBackend<IO> {
    type V = BackendView;

    open spec fn view(&self) -> BackendView {
        BackendView {
            log: self.disk@,
            storage: match self.storage {
                BackendStorage::Raw => StorageView::Raw,
                BackendStorage::Cow(cow) => StorageView::Cow {
                    header: cow.header,
                    bitmap: cow.bitmap@,
                },
            },
            read_only: self.read_only,
            sectors: self.sectors,
        }
    }
}

/// The string that a device identifies itself with, padded with zeros to 20 bytes.
pub open spec fn serial_string() -> Seq<u8> {
    seq![
        0x76u8, 0x6d, 0x6d, 0x2d, 0x62, 0x6c, 0x6b, 0, 0, 0, 0, 0, 0, 0, 0, 0, 0, 0, 0, 0,
    ]
}

/// The operation of a request, without the flag that asks for stable storage.
pub open spec fn request_op(header: BlkReqHeader) -> u32 {
    header.req_type & !VIRTIO_BLK_T_BARRIER
}

/// Whether a request asks for its data to be on stable storage when it completes.
pub open spec fn request_fua(header: BlkReqHeader) -> bool {
    header.req_type & VIRTIO_BLK_T_BARRIER != 0
}

/// What the validation of a service request gives: the operation, its byte offset, and whether
/// it asks for stable storage. A read or write must lie within the device to the byte.
pub open spec fn service_validated(header: BlkReqHeader, data_len: int, sectors: u64) -> Result<
    (u32, u64, bool),
    ValidationError,
> {
    let op = request_op(header);
    match blk::validated(BlkReqHeader { req_type: op, ..header }, data_len as u64, sectors) {
        Err(e) => Err(ValidationError::Request(e)),
        Ok(offset) => if op != req_type::IN && op != req_type::OUT {
            Ok((op, offset, request_fua(header)))
        } else if sectors * 512 > u64::MAX {
            Err(ValidationError::DeviceLengthOverflows)
        } else if offset + data_len > u64::MAX {
            Err(ValidationError::RequestEndOverflows)
        } else if offset + data_len > sectors * 512 {
            Err(
                ValidationError::RequestPastEnd {
                    end: (offset + data_len) as u64,
                    device_len: (sectors * 512) as u64,
                },
            )
        } else {
            Ok((op, offset, request_fua(header)))
        },
    }
}

/// A read from the storage with the events `t` turns the buffer `before` into `after` with result
/// `r`.
pub open spec fn storage_reads(
    storage: StorageView,
    offset: int,
    before: Seq<u8>,
    t: Seq<DiskEvent>,
    after: Seq<u8>,
    r: Result<(), BlkBackendError>,
) -> bool {
    match storage {
        StorageView::Raw => {
            &&& t.len() == 1
            &&& t[0].op == DiskOpView::Read {
                file: DiskFile::Image,
                offset,
                len: before.len() as int,
            }
            &&& match t[0].bytes_read() {
                None => after == before && r == Err::<(), BlkBackendError>(BlkBackendError::Io),
                Some(b) => after == b && r == Ok::<(), BlkBackendError>(()),
            }
        },
        StorageView::Cow { header, bitmap } => cow_read_runs(
            header,
            bitmap,
            offset,
            0,
            before,
            t,
            after,
            r,
        ),
    }
}

/// A write to the storage with the events `t` turns it from `before` into `after` with result `r`.
pub open spec fn storage_writes(
    before: StorageView,
    offset: int,
    data: Seq<u8>,
    force_unit_access: bool,
    t: Seq<DiskEvent>,
    after: StorageView,
    r: Result<(), BlkBackendError>,
) -> bool {
    match before {
        StorageView::Raw => {
            let write = DiskOpView::Write { file: DiskFile::Image, offset, data };
            let sync = DiskOpView::SyncData { file: DiskFile::Image };
            &&& after == before
            &&& disk::ops_ran(
                if force_unit_access {
                    seq![write, sync]
                } else {
                    seq![write]
                },
                t,
                r is Ok,
            )
            &&& r is Err ==> r == Err::<(), BlkBackendError>(BlkBackendError::Io)
        },
        StorageView::Cow { header, bitmap } => {
            &&& after matches StorageView::Cow { header: h2, bitmap: b2 }
            &&& h2 == header
            &&& cow_write_runs(header, bitmap, offset, data, force_unit_access, t, b2, r)
        },
    }
}

/// A sync of the storage with the events `t` ends with result `r`.
pub open spec fn storage_flushes(
    storage: StorageView,
    t: Seq<DiskEvent>,
    r: Result<(), BlkBackendError>,
) -> bool {
    match storage {
        StorageView::Raw => flush_runs(DiskOpView::SyncData { file: DiskFile::Image }, t, r),
        StorageView::Cow { .. } => flush_runs(
            DiskOpView::SyncAll { file: DiskFile::Overlay },
            t,
            r,
        ),
    }
}

/// A storage operation that ended with `r` is answered with this status.
pub open spec fn status_of(r: Result<(), BlkBackendError>) -> u8 {
    if r is Ok {
        status::OK
    } else {
        status::IO_ERR
    }
}

/// Servicing a request turns backend `before` into `after` and the request's buffer `data` into
/// `left`, with status `st`. What it does to the files is what `after` has on record beyond
/// `before`.
pub open spec fn service_runs(
    before: BackendView,
    header: BlkReqHeader,
    data: Seq<u8>,
    after: BackendView,
    left: Seq<u8>,
    st: u8,
) -> bool {
    let t = disk::events(before.log, after.log);
    &&& after.log == before.log + t
    &&& after.read_only == before.read_only
    &&& after.sectors == before.sectors
    &&& match service_validated(header, data.len() as int, before.sectors) {
        Err(_) => after == before && left == data && st == status::IO_ERR,
        Ok((op, offset, fua)) => if op == req_type::IN {
            exists|r: Result<(), BlkBackendError>|
                #[trigger] storage_reads(before.storage, offset as int, data, t, left, r)
                    && after.storage == before.storage && st == status_of(r)
        } else if op == req_type::OUT {
            if before.read_only {
                after == before && left == data && st == status::IO_ERR
            } else {
                exists|r: Result<(), BlkBackendError>|
                    #[trigger] storage_writes(
                        before.storage,
                        offset as int,
                        data,
                        fua,
                        t,
                        after.storage,
                        r,
                    ) && left == data && st == status_of(r)
            }
        } else if op == req_type::FLUSH {
            exists|r: Result<(), BlkBackendError>|
                #[trigger] storage_flushes(before.storage, t, r) && after.storage == before.storage
                    && left == data && st == status_of(r)
        } else if op == req_type::GET_ID {
            &&& after == before
            &&& left == spliced(
                data,
                0,
                serial_string().take(if data.len() < 20 {
                    data.len() as int
                } else {
                    20
                }),
            )
            &&& st == status::OK
        } else {
            after == before && left == data && st == status::UNSUPP
        },
    }
}

impl<IO: Fn(DiskOp) -> Option<Vec<u8>>> BlkBackend<IO> {
    /// An overlay that fits the backend's size, or none.
    pub open spec fn wf(self) -> bool {
        &&& self.disk.wf()
        &&& match self.storage {
            BackendStorage::Raw => true,
            BackendStorage::Cow(cow) => cow.wf() && cow.header.blocks == self.sectors,
        }
    }

    /// Open a backing file of `len` bytes for the block device.
    pub fn open(io: IO, len: u64, read_only: bool) -> (b: Self)
        requires
            forall|o: DiskOp| call_requires(io, (o,)),
        ensures
            b.wf(),
            b.disk.io() == io,
            b@ == (BackendView {
                log: Seq::empty(),
                storage: StorageView::Raw,
                read_only,
                sectors: len / 512,
            }),
    {
        BlkBackend { disk: Disk::new(io), storage: BackendStorage::Raw, read_only, sectors: len / 512 }
    }

    /// Open a read-only base image of `base_len` bytes with a private sparse copy-on-write
    /// overlay, which holds `overlay_len` bytes.
    pub fn open_cow(io: IO, base_len: u64, overlay_len: u64) -> (r: Result<Self, BlkBackendError>)
        requires
            forall|o: DiskOp| call_requires(io, (o,)),
        ensures
            match r {
                Ok(b) => {
                    &&& b.wf()
                    &&& b.disk.io() == io
                    &&& b.storage matches BackendStorage::Cow(cow)
                    &&& cow_opens(overlay_len, base_len / 512, b.disk@, Ok(cow))
                    &&& !b.read_only
                    &&& b.sectors == base_len / 512
                },
                Err(e) => exists|d: Disk<IO>|
                    d.wf() && d.io() == io && cow_opens(
                        overlay_len,
                        base_len / 512,
                        #[trigger] d@,
                        Err(e),
                    ),
            },
    {
        let sectors: u64 = base_len / SECTOR_SIZE;
        let mut disk = Disk::new(io);
        let ghost log = disk@;
        let c = CowOverlay::open(&mut disk, overlay_len, sectors);
        assert(disk::events(log, disk@) =~= disk@);
        match c {
            Ok(cow) => Ok(
                BlkBackend { disk, storage: BackendStorage::Cow(cow), read_only: false, sectors },
            ),
            Err(e) => {
                assert(cow_opens(overlay_len, base_len / 512, disk@, Err(e)));
                Err(e)
            },
        }
    }

    /// Service a single block request.
    ///
    /// - `header`: the parsed virtio_blk_req (type, sector)
    /// - `data`: the data buffer (read: device fills this; write: guest provides this)
    ///
    /// Returns the status byte to write back to the guest's status descriptor.
    pub fn service(&mut self, header: &BlkReqHeader, data: &mut Vec<u8>) -> (st: u8)
        requires
            old(self).wf(),
        ensures
            final(self).wf(),
            final(self).disk.io() == old(self).disk.io(),
            final(data)@.len() == old(data)@.len(),
            service_runs(
                old(self)@,
                *header,
                old(data)@,
                final(self)@,
                final(data)@,
                st,
            ),
    {
        let ghost log = self.disk@;
        assert(disk::events(log, log) =~= Seq::empty());
        assert(log + Seq::<DiskEvent>::empty() =~= log);
        let (op, offset, force_unit_access) = match self.validate_service_req(header, data.len()) {
            Ok(validated) => validated,
            Err(_) => {
                return status::IO_ERR;
            },
        };
        if op == req_type::IN {
            let r = self.read_at(offset, data);
            match r {
                Ok(()) => status::OK,
                Err(_) => status::IO_ERR,
            }
        } else if op == req_type::OUT {
            if self.read_only {
                return status::IO_ERR;
            }
            let r = self.write_at(offset, data.as_slice(), force_unit_access);
            match r {
                Ok(()) => status::OK,
                Err(_) => status::IO_ERR,
            }
        } else if op == req_type::FLUSH {
            let r = self.flush();
            match r {
                Ok(()) => status::OK,
                Err(_) => status::IO_ERR,
            }
        } else if op == req_type::GET_ID {
            let serial: Vec<u8> = vec![
                0x76, 0x6d, 0x6d, 0x2d, 0x62, 0x6c, 0x6b, 0, 0, 0, 0, 0, 0, 0, 0, 0, 0, 0, 0, 0,
            ];
            assert(serial@ =~= serial_string());
            let len: usize = if data.len() < 20 {
                data.len()
            } else {
                20
            };
            let part = slice_subrange(serial.as_slice(), 0, len);
            assert(part@ =~= serial_string().take(len as int));
            splice(data, 0, part);
            status::OK
        } else {
            status::UNSUPP
        }
    }

    /// Validates a request to the byte: the operation, its offset, and whether it asks for
    /// stable storage.
    pub fn validate_service_req(&self, header: &BlkReqHeader, data_len: usize) -> (r: Result<
        (u32, u64, bool),
        BlkBackendError,
    >)
        ensures
            r == (match service_validated(*header, data_len as int, self.sectors) {
                Ok(v) => Ok::<(u32, u64, bool), BlkBackendError>(v),
                Err(e) => Err(BlkBackendError::Validation(e)),
            }),
    {
        let op: u32 = header.req_type & !VIRTIO_BLK_T_BARRIER;
        let force_unit_access = header.req_type & VIRTIO_BLK_T_BARRIER != 0;
        let normalized = BlkReqHeader {
            req_type: op,
            reserved: header.reserved,
            sector: header.sector,
        };
        let offset: u64 = match validate_req(&normalized, data_len as u64, self.sectors) {
            Ok(offset) => offset,
            Err(e) => {
                return Err(BlkBackendError::Validation(ValidationError::Request(e)));
            },
        };
        if op == req_type::IN || op == req_type::OUT {
            let device_len: u64 = match self.sectors.checked_mul(SECTOR_SIZE) {
                Some(n) => n,
                None => {
                    return Err(BlkBackendError::Validation(ValidationError::DeviceLengthOverflows));
                },
            };
            let end: u64 = match offset.checked_add(data_len as u64) {
                Some(n) => n,
                None => {
                    return Err(BlkBackendError::Validation(ValidationError::RequestEndOverflows));
                },
            };
            if end > device_len {
                return Err(
                    BlkBackendError::Validation(ValidationError::RequestPastEnd { end, device_len }),
                );
            }
        }
        Ok((op, offset, force_unit_access))
    }

    fn read_at(&mut self, offset: u64, data: &mut Vec<u8>) -> (r: Result<(), BlkBackendError>)
        requires
            old(self).wf(),
            offset + old(data)@.len() <= old(self).sectors * 512,
        ensures
            final(self).wf(),
            final(self).disk.io() == old(self).disk.io(),
            final(self)@ == (BackendView { log: final(self)@.log, ..old(self)@ }),
            final(self)@.log == old(self)@.log + disk::events(old(self)@.log, final(self)@.log),
            final(data)@.len() == old(data)@.len(),
            storage_reads(
                old(self)@.storage,
                offset as int,
                old(data)@,
                disk::events(old(self)@.log, final(self)@.log),
                final(data)@,
                r,
            ),
    {
        let ghost log = self.disk@;
        match &self.storage {
            BackendStorage::Raw => {
                let read = self.disk.read_exact_at(DiskFile::Image, offset, data.len());
                assert(self.disk@ =~= log + seq![self.disk@.last()]);
                assert(disk::events(log, self.disk@) =~= seq![self.disk@.last()]);
                match read {
                    Some(bytes) => {
                        *data = bytes;
                        Ok(())
                    },
                    None => Err(BlkBackendError::Io),
                }
            },
            BackendStorage::Cow(cow) => cow.read_at(&mut self.disk, offset, data),
        }
    }

    fn write_at(&mut self, offset: u64, data: &[u8], force_unit_access: bool) -> (r: Result<
        (),
        BlkBackendError,
    >)
        requires
            old(self).wf(),
            offset + data@.len() <= old(self).sectors * 512,
        ensures
            final(self).wf(),
            final(self).disk.io() == old(self).disk.io(),
            final(self).read_only == old(self).read_only,
            final(self).sectors == old(self).sectors,
            final(self)@.log == old(self)@.log + disk::events(old(self)@.log, final(self)@.log),
            storage_writes(
                old(self)@.storage,
                offset as int,
                data@,
                force_unit_access,
                disk::events(old(self)@.log, final(self)@.log),
                final(self)@.storage,
                r,
            ),
    {
        let ghost log = self.disk@;
        match &mut self.storage {
            BackendStorage::Raw => {
                let mut copy: Vec<u8> = Vec::new();
                push_all(&mut copy, data);
                assert(copy@ =~= data@);
                let write = DiskOp::Write { file: DiskFile::Image, offset, data: copy };
                let ghost one = seq![write@];
                let ghost two = seq![write@, DiskOpView::SyncData { file: DiskFile::Image }];
                proof {
                    reveal_with_fuel(disk::ops_ran, 3);
                    assert(one.skip(1) =~= Seq::empty());
                    assert(two.skip(1).skip(1) =~= Seq::empty());
                }
                let ok = self.disk.perform(write);
                let ghost t1 = seq![self.disk@.last()];
                assert(self.disk@ =~= log + t1);
                assert(disk::events(log, self.disk@) =~= t1);
                assert(t1.skip(1) =~= Seq::empty());
                if !ok {
                    return Err(BlkBackendError::Io);
                }
                if force_unit_access {
                    let ok = self.disk.perform(DiskOp::SyncData { file: DiskFile::Image });
                    let ghost t2 = t1.push(self.disk@.last());
                    assert(self.disk@ =~= log + t2);
                    assert(disk::events(log, self.disk@) =~= t2);
                    assert(t2.skip(1).skip(1) =~= Seq::empty());
                    assert(two.skip(1)[0] == DiskOpView::SyncData { file: DiskFile::Image });
                    assert(disk::ops_ran(two.skip(1), t2.skip(1), ok));
                    assert(disk::ops_ran(two, t2, ok));
                    if !ok {
                        return Err(BlkBackendError::Io);
                    }
                }
                Ok(())
            },
            BackendStorage::Cow(cow) => cow.write_at(
                &mut self.disk,
                offset,
                data,
                force_unit_access,
            ),
        }
    }

    fn flush(&mut self) -> (r: Result<(), BlkBackendError>)
        requires
            old(self).wf(),
        ensures
            final(self).wf(),
            final(self).disk.io() == old(self).disk.io(),
            final(self)@ == (BackendView { log: final(self)@.log, ..old(self)@ }),
            final(self)@.log == old(self)@.log + disk::events(old(self)@.log, final(self)@.log),
            storage_flushes(
                old(self)@.storage,
                disk::events(old(self)@.log, final(self)@.log),
                r,
            ),
    {
        let ghost log = self.disk@;
        match &self.storage {
            BackendStorage::Raw => {
                let ok = self.disk.perform(DiskOp::SyncData { file: DiskFile::Image });
                assert(self.disk@ =~= log + seq![self.disk@.last()]);
                assert(disk::events(log, self.disk@) =~= seq![self.disk@.last()]);
                if ok {
                    Ok(())
                } else {
                    Err(BlkBackendError::Io)
                }
            },
            BackendStorage::Cow(cow) => cow.flush(&mut self.disk),
        }
    }
}

} // verus!
