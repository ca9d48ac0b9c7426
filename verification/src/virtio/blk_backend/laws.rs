//! Laws of the block backend: what a read gives back of a write, and what an overlay keeps.
use crate::bytes;
use crate::virtio::blk_backend::disk::{self, DiskEvent, DiskOpView};
use crate::virtio::blk::{req_type, status, BlkReqHeader};
use crate::virtio::blk_backend::{
    self, BackendView, BlkBackendError, CowHeader, CowOverlay, CowStep, DiskFile, StorageView,
    ValidationError,
};
use vstd::prelude::*;

verus! {

/// A header that was stored is the header that is read back.
#[verifier::spinoff_prover]
#[verifier::rlimit(60)]
pub proof fn law_cow_header_round_trip(h: CowHeader)
    ensures
        h.encoded().len() == 4096,
        CowHeader::decoded(h.encoded()) == Ok::<CowHeader, ValidationError>(h),
{
    let e = h.encoded();
    let w8 = blk_backend::cow_magic();
    let w12 = w8 + bytes::le32_bytes(1);
    let w16 = w12 + bytes::le32_bytes(512);
    let w24 = w16 + bytes::le64_bytes(h.base_len as int);
    let w32 = w24 + bytes::le64_bytes(h.blocks as int);
    let w40 = w32 + bytes::le64_bytes(h.bitmap_offset as int);
    let w48 = w40 + bytes::le64_bytes(h.bitmap_len as int);
    let w56 = w48 + bytes::le64_bytes(h.data_offset as int);
    assert(w56 == h.encoded_fields());
    assert(e.len() == 4096);
    assert(e.take(56) =~= w56);
    assert(e.take(48) =~= w48) by {
        assert(w56.take(48) =~= w48);
    }
    assert(e.take(40) =~= w40) by {
        assert(w48.take(40) =~= w40);
    }
    assert(e.take(32) =~= w32) by {
        assert(w40.take(32) =~= w32);
    }
    assert(e.take(24) =~= w24) by {
        assert(w32.take(24) =~= w24);
    }
    assert(e.take(16) =~= w16) by {
        assert(w24.take(16) =~= w16);
    }
    assert(e.take(12) =~= w12) by {
        assert(w16.take(12) =~= w12);
    }
    assert(e.subrange(0, 8) =~= w8) by {
        assert(w12.take(8) =~= w8);
    }
    assert(e.subrange(8, 12) =~= bytes::le32_bytes(1)) by {
        assert(w12.subrange(8, 12) =~= bytes::le32_bytes(1));
    }
    assert(e.subrange(12, 16) =~= bytes::le32_bytes(512)) by {
        assert(w16.subrange(12, 16) =~= bytes::le32_bytes(512));
    }
    assert(e.subrange(16, 24) =~= bytes::le64_bytes(h.base_len as int)) by {
        assert(w24.subrange(16, 24) =~= bytes::le64_bytes(h.base_len as int));
    }
    assert(e.subrange(24, 32) =~= bytes::le64_bytes(h.blocks as int)) by {
        assert(w32.subrange(24, 32) =~= bytes::le64_bytes(h.blocks as int));
    }
    assert(e.subrange(32, 40) =~= bytes::le64_bytes(h.bitmap_offset as int)) by {
        assert(w40.subrange(32, 40) =~= bytes::le64_bytes(h.bitmap_offset as int));
    }
    assert(e.subrange(40, 48) =~= bytes::le64_bytes(h.bitmap_len as int)) by {
        assert(w48.subrange(40, 48) =~= bytes::le64_bytes(h.bitmap_len as int));
    }
    assert(e.subrange(48, 56) =~= bytes::le64_bytes(h.data_offset as int)) by {
        assert(w56.subrange(48, 56) =~= bytes::le64_bytes(h.data_offset as int));
    }
    bytes::lemma_le32_found(e, 8, 1);
    bytes::lemma_le32_found(e, 12, 512);
    bytes::lemma_le64_found(e, 16, h.base_len);
    bytes::lemma_le64_found(e, 24, h.blocks);
    bytes::lemma_le64_found(e, 32, h.bitmap_offset);
    bytes::lemma_le64_found(e, 40, h.bitmap_len);
    bytes::lemma_le64_found(e, 48, h.data_offset);
}

/// The bytes of the files of a backend.
#[verifier::ext_equal]
pub struct DiskFiles {
    pub image: spec_fn(int) -> u8,
    pub base: spec_fn(int) -> u8,
    pub overlay: spec_fn(int) -> u8,
}

/// A file after `bytes` were stored at `at`.
pub open spec fn file_put(
    file: spec_fn(int) -> u8,
    at: int,
    bytes: Seq<u8>,
) -> spec_fn(int) -> u8 {
    |a: int|
        if at <= a < at + bytes.len() {
            bytes[a - at]
        } else {
            file(a)
        }
}

/// A file after it was cut or extended to `size` bytes.
pub open spec fn file_resized(file: spec_fn(int) -> u8, size: int) -> spec_fn(int) -> u8 {
    |a: int|
        if a < size {
            file(a)
        } else {
            0
        }
}

/// `n` bytes of a file from `at` on.
pub open spec fn file_bytes(file: spec_fn(int) -> u8, at: int, n: int) -> Seq<u8> {
    Seq::new(n as nat, |i: int| file(at + i))
}

impl DiskFiles {
    pub open spec fn of(self, file: DiskFile) -> spec_fn(int) -> u8 {
        match file {
            DiskFile::Image => self.image,
            DiskFile::Base => self.base,
            DiskFile::Overlay => self.overlay,
        }
    }

    pub open spec fn with(self, file: DiskFile, bytes: spec_fn(int) -> u8) -> DiskFiles {
        match file {
            DiskFile::Image => DiskFiles { image: bytes, ..self },
            DiskFile::Base => DiskFiles { base: bytes, ..self },
            DiskFile::Overlay => DiskFiles { overlay: bytes, ..self },
        }
    }
}

/// The files after an operation that succeeded, or did not.
pub open spec fn event_applied(f: DiskFiles, e: DiskEvent) -> DiskFiles {
    if !e.ok() {
        f
    } else {
        match e.op {
            DiskOpView::Write { file, offset, data } => f.with(
                file,
                file_put(f.of(file), offset, data),
            ),
            DiskOpView::SetLen { file, size } => f.with(file, file_resized(f.of(file), size)),
            _ => f,
        }
    }
}

/// The files after all operations.
pub open spec fn files_after(f: DiskFiles, t: Seq<DiskEvent>) -> DiskFiles
    decreases t.len(),
{
    if t.len() == 0 {
        f
    } else {
        files_after(event_applied(f, t[0]), t.skip(1))
    }
}

/// Every read that succeeded gave the bytes that its file then held.
pub open spec fn truthful(f: DiskFiles, t: Seq<DiskEvent>) -> bool
    decreases t.len(),
{
    if t.len() == 0 {
        true
    } else {
        &&& match (t[0].op, t[0].bytes_read()) {
            (DiskOpView::Read { file, offset, len }, Some(b)) => b == file_bytes(
                f.of(file),
                offset,
                len,
            ),
            _ => true,
        }
        &&& truthful(event_applied(f, t[0]), t.skip(1))
    }
}

/// The operation changes the bytes of the file.
pub open spec fn alters(op: DiskOpView, file: DiskFile) -> bool {
    match op {
        DiskOpView::Write { file: written, .. } => written == file,
        DiskOpView::SetLen { file: resized, .. } => resized == file,
        _ => false,
    }
}

/// No operation changes the bytes of the file, whether it succeeds or not.
pub open spec fn spares(t: Seq<DiskEvent>, file: DiskFile) -> bool {
    forall|j: int| 0 <= j < t.len() ==> !alters((#[trigger] t[j]).op, file)
}

/// Byte `i` of the device that the guest sees.
pub open spec fn device_byte(f: DiskFiles, header: CowHeader, bitmap: Seq<u8>, i: int) -> u8 {
    if blk_backend::bit_set(bitmap, i / 512) {
        (f.overlay)(header.data_offset + i)
    } else {
        (f.base)(i)
    }
}

/// The overlay file holds the bitmap.
pub open spec fn bitmap_stored(f: DiskFiles, header: CowHeader, bitmap: Seq<u8>) -> bool {
    forall|j: int|
        0 <= j < bitmap.len() ==> #[trigger] (f.overlay)(header.bitmap_offset + j) == bitmap[j]
}

/// The header lays out its block count, and the bitmap has its length.
pub open spec fn layout_ok(header: CowHeader, bitmap: Seq<u8>) -> bool {
    &&& CowHeader::laid_out(header.blocks) == Ok::<CowHeader, ValidationError>(header)
    &&& bitmap.len() == header.bitmap_len
}

/// The files after a write's step succeeded.
spec fn step_applied(f: DiskFiles, step: CowStep, data: Seq<u8>) -> DiskFiles {
    match step {
        CowStep::CopyBlock { source, to } => DiskFiles {
            overlay: file_put(f.overlay, to as int, file_bytes(f.base, source as int, 512)),
            ..f
        },
        CowStep::Put { to, start, len } => DiskFiles {
            overlay: file_put(f.overlay, to as int, data.subrange(start as int, start + len)),
            ..f
        },
        CowStep::SetBit { at, value, .. } => DiskFiles {
            overlay: file_put(f.overlay, at as int, seq![value]),
            ..f
        },
        _ => f,
    }
}

/// The files after all steps succeeded in order.
spec fn steps_applied(f: DiskFiles, steps: Seq<CowStep>, data: Seq<u8>) -> DiskFiles
    decreases steps.len(),
{
    if steps.len() == 0 {
        f
    } else {
        steps_applied(step_applied(f, steps[0], data), steps.skip(1), data)
    }
}

/// The bitmap after all steps succeeded in order.
spec fn bits_after(bits: Seq<u8>, steps: Seq<CowStep>) -> Seq<u8>
    decreases steps.len(),
{
    if steps.len() == 0 {
        bits
    } else {
        bits_after(blk_backend::marked(bits, steps[0]), steps.skip(1))
    }
}

/// From one state to the next the device takes the bytes of `data` between `from` and `to`, as
/// part of a request that starts at `offset`; everything else stays.
spec fn takes(
    f: DiskFiles,
    bits: Seq<u8>,
    header: CowHeader,
    offset: int,
    data: Seq<u8>,
    from: int,
    to: int,
    f2: DiskFiles,
    bits2: Seq<u8>,
) -> bool {
    &&& f2.base == f.base
    &&& bits2.len() == bits.len()
    &&& forall|i: int|
        0 <= i < header.base_len ==> #[trigger] device_byte(f2, header, bits2, i) == (if offset
            + from <= i < offset + to {
            data[i - offset]
        } else {
            device_byte(f, header, bits, i)
        })
    &&& bitmap_stored(f, header, bits) ==> bitmap_stored(f2, header, bits2)
    &&& forall|a: int| 0 <= a < 4096 ==> #[trigger] (f2.overlay)(a) == (f.overlay)(a)
}

proof fn lemma_bit_after(bits: Seq<u8>, b: int, j: int)
    requires
        0 <= b < 8 * bits.len(),
        0 <= j < 8 * bits.len(),
    ensures
        blk_backend::bit_set(blk_backend::with_bit(bits, b), j) == (j == b
            || blk_backend::bit_set(bits, j)),
{
    let v = bits[b / 8];
    let p = (b % 8) as u8;
    let q = (j % 8) as u8;
    assert(((v | (1u8 << p)) & (1u8 << q) != 0) == (p == q || v & (1u8 << q) != 0)) by (bit_vector)
        requires
            p < 8,
            q < 8,
    ;
}

proof fn lemma_layout(header: CowHeader, bits: Seq<u8>)
    requires
        layout_ok(header, bits),
    ensures
        header.bitmap_offset == 4096,
        4096 + bits.len() <= header.data_offset,
        header.base_len == header.blocks * 512,
        8 * bits.len() >= header.blocks,
        header.data_offset as int % 512 == 0,
{
}

proof fn lemma_segment(
    f: DiskFiles,
    header: CowHeader,
    bits: Seq<u8>,
    offset: int,
    data: Seq<u8>,
    start: int,
)
    requires
        layout_ok(header, bits),
        0 <= offset,
        0 <= start < data.len(),
        data.len() <= usize::MAX,
        offset + data.len() <= header.base_len,
        header.data_offset + offset + start <= u64::MAX,
    ensures
        ({
            let pos = offset + start;
            let n = blk_backend::segment_len(pos, data.len() - start);
            let seg = blk_backend::segment_steps(header, bits, pos, n, start);
            let bits2 = if blk_backend::bit_set(bits, pos / 512) {
                bits
            } else {
                blk_backend::with_bit(bits, pos / 512)
            };
            &&& takes(
                f,
                bits,
                header,
                offset,
                data,
                start,
                start + n,
                steps_applied(f, seg, data),
                bits2,
            )
            &&& bits_after(bits, seg) == bits2
        }),
{
    let pos = offset + start;
    let block = pos / 512;
    let n = blk_backend::segment_len(pos, data.len() - start);
    let seg = blk_backend::segment_steps(header, bits, pos, n, start);
    let dirty = blk_backend::bit_set(bits, block);
    let bits2 = if dirty {
        bits
    } else {
        blk_backend::with_bit(bits, block)
    };
    let f2 = steps_applied(f, seg, data);
    lemma_layout(header, bits);
    reveal_with_fuel(steps_applied, 4);
    reveal_with_fuel(bits_after, 4);
    let piece = data.subrange(start, start + n);
    let put_at = header.data_offset + pos;
    let block_at = header.data_offset + block * 512;
    let bit_at = header.bitmap_offset + block / 8;
    if dirty {
        assert(f2.overlay == file_put(f.overlay, put_at, piece));
    } else if n == 512 {
        assert(seg.skip(1)[0] == seg[1]);
        assert(f2.overlay == file_put(
            file_put(f.overlay, put_at, piece),
            bit_at,
            seq![bits2[block / 8]],
        ));
    } else {
        assert(seg.skip(1)[0] == seg[1]);
        assert(seg.skip(1).skip(1)[0] == seg[2]);
        assert(f2.overlay == file_put(
            file_put(
                file_put(f.overlay, block_at, file_bytes(f.base, block * 512, 512)),
                put_at,
                piece,
            ),
            bit_at,
            seq![bits2[block / 8]],
        ));
    }
    assert forall|i: int| 0 <= i < header.base_len implies #[trigger] device_byte(
        f2,
        header,
        bits2,
        i,
    ) == (if pos <= i < pos + n {
        data[i - offset]
    } else {
        device_byte(f, header, bits, i)
    }) by {
        lemma_bit_after(bits, block, i / 512);
        if i / 512 == block {
            assert(block * 512 <= i < block * 512 + 512);
        }
    }
    assert(bitmap_stored(f, header, bits) ==> bitmap_stored(f2, header, bits2)) by {
        if bitmap_stored(f, header, bits) {
            assert forall|j: int| 0 <= j < bits2.len() implies #[trigger] (f2.overlay)(
                header.bitmap_offset + j,
            ) == bits2[j] by {
                assert((f.overlay)(header.bitmap_offset + j) == bits[j]);
            }
        }
    }
}

proof fn lemma_steps_concat(
    f: DiskFiles,
    bits: Seq<u8>,
    a: Seq<CowStep>,
    b: Seq<CowStep>,
    data: Seq<u8>,
)
    ensures
        steps_applied(f, a + b, data) == steps_applied(steps_applied(f, a, data), b, data),
        bits_after(bits, a + b) == bits_after(bits_after(bits, a), b),
    decreases a.len(),
{
    if a.len() == 0 {
        assert(a + b =~= b);
    } else {
        assert((a + b).skip(1) =~= a.skip(1) + b);
        lemma_steps_concat(
            step_applied(f, a[0], data),
            blk_backend::marked(bits, a[0]),
            a.skip(1),
            b,
            data,
        );
    }
}

/// The steps of a write hold no sync, and where they end in no refusal they bring the data to the
/// device.
proof fn lemma_write_from(
    f: DiskFiles,
    header: CowHeader,
    bits: Seq<u8>,
    offset: int,
    data: Seq<u8>,
    start: int,
)
    requires
        layout_ok(header, bits),
        0 <= offset,
        0 <= start <= data.len(),
        data.len() <= usize::MAX,
        offset + data.len() <= header.base_len,
        !blk_backend::write_steps(header, bits, offset, data.len() as int, start).contains(
            CowStep::Reject,
        ),
    ensures
        ({
            let steps = blk_backend::write_steps(header, bits, offset, data.len() as int, start);
            takes(
                f,
                bits,
                header,
                offset,
                data,
                start,
                data.len() as int,
                steps_applied(f, steps, data),
                bits_after(bits, steps),
            )
        }),
    decreases data.len() - start,
{
    if start < data.len() {
        let pos = offset + start;
        let n = blk_backend::segment_len(pos, data.len() - start);
        let steps = blk_backend::write_steps(header, bits, offset, data.len() as int, start);
        if header.data_offset + pos > u64::MAX {
            assert(steps[0] == CowStep::Reject);
        }
        let seg = blk_backend::segment_steps(header, bits, pos, n, start);
        let bits2 = if blk_backend::bit_set(bits, pos / 512) {
            bits
        } else {
            blk_backend::with_bit(bits, pos / 512)
        };
        let rest = blk_backend::write_steps(header, bits2, offset, data.len() as int, start + n);
        assert(!rest.contains(CowStep::Reject)) by {
            if rest.contains(CowStep::Reject) {
                let i = choose|i: int| 0 <= i < rest.len() && rest[i] == CowStep::Reject;
                assert(steps[seg.len() + i] == CowStep::Reject);
            }
        }
        lemma_segment(f, header, bits, offset, data, start);
        let f2 = steps_applied(f, seg, data);
        lemma_write_from(f2, header, bits2, offset, data, start + n);
        lemma_steps_concat(f, bits, seg, rest, data);
        let f3 = steps_applied(f2, rest, data);
        let bits3 = bits_after(bits2, rest);
        assert forall|i: int| 0 <= i < header.base_len implies #[trigger] device_byte(
            f3,
            header,
            bits3,
            i,
        ) == (if pos <= i < offset + data.len() {
            data[i - offset]
        } else {
            device_byte(f, header, bits, i)
        }) by {
            assert(device_byte(f2, header, bits2, i) == (if pos <= i < pos + n {
                data[i - offset]
            } else {
                device_byte(f, header, bits, i)
            }));
        }
        assert forall|a: int| 0 <= a < 4096 implies #[trigger] (f3.overlay)(a) == (f.overlay)(
            a,
        ) by {
            assert((f2.overlay)(a) == (f.overlay)(a));
        }
    }
}

/// Steps that all succeeded hold no refusal, and leave files and bitmap as the steps say.
proof fn lemma_steps_ran(
    f: DiskFiles,
    bits: Seq<u8>,
    steps: Seq<CowStep>,
    data: Seq<u8>,
    t: Seq<DiskEvent>,
    after: Seq<u8>,
)
    requires
        blk_backend::steps_ran(bits, steps, data, t, after, None),
        truthful(f, t),
    ensures
        files_after(f, t) == steps_applied(f, steps, data),
        after == bits_after(bits, steps),
        !steps.contains(CowStep::Reject),
    decreases steps.len(),
{
    if steps.len() > 0 {
        let step = steps[0];
        let n = blk_backend::step_events(step, t);
        let own = t.take(n);
        assert(own[0] == t[0]);
        let g = step_applied(f, step, data);
        reveal_with_fuel(files_after, 3);
        reveal_with_fuel(truthful, 3);
        if let CowStep::CopyBlock { source, to } = step {
            assert(t.skip(1).skip(1) =~= t.skip(2));
            assert(own[1] == t[1]);
            assert(t.skip(1)[0] == t[1]);
            assert(event_applied(f, t[0]) == f);
            assert(event_applied(f, t[1]) == g);
        } else {
            assert(event_applied(f, t[0]) == g);
        }
        assert(files_after(f, t) == files_after(g, t.skip(n)));
        assert(truthful(g, t.skip(n)));
        lemma_steps_ran(
            g,
            blk_backend::marked(bits, step),
            steps.skip(1),
            data,
            t.skip(n),
            after,
        );
        assert(!steps.contains(CowStep::Reject)) by {
            if steps.contains(CowStep::Reject) {
                let i = choose|i: int| 0 <= i < steps.len() && steps[i] == CowStep::Reject;
                assert(i > 0);
                assert(steps.skip(1)[i - 1] == CowStep::Reject);
            }
        }
    }
}

/// What a write that succeeded stored is what the device holds afterwards, and every other byte of
/// the device stays. The base image is not touched, the overlay's header is not touched, and an
/// overlay that holds its bitmap still does, so that it can be opened again.
pub proof fn law_cow_read_after_write(
    f: DiskFiles,
    header: CowHeader,
    bitmap: Seq<u8>,
    offset: int,
    data: Seq<u8>,
    force_unit_access: bool,
    t: Seq<DiskEvent>,
    after: Seq<u8>,
)
    requires
        layout_ok(header, bitmap),
        0 <= offset,
        data.len() <= usize::MAX,
        offset + data.len() <= header.base_len,
        truthful(f, t),
        blk_backend::cow_write_runs(
            header,
            bitmap,
            offset,
            data,
            force_unit_access,
            t,
            after,
            Ok::<(), BlkBackendError>(()),
        ),
    ensures
        forall|i: int|
            0 <= i < header.base_len ==> #[trigger] device_byte(
                files_after(f, t),
                header,
                after,
                i,
            ) == (if offset <= i < offset + data.len() {
                data[i - offset]
            } else {
                device_byte(f, header, bitmap, i)
            }),
        files_after(f, t).base == f.base,
        forall|a: int|
            0 <= a < 4096 ==> #[trigger] (files_after(f, t).overlay)(a) == (f.overlay)(a),
        bitmap_stored(f, header, bitmap) ==> bitmap_stored(files_after(f, t), header, after),
        after.len() == bitmap.len(),
{
    let steps = blk_backend::request_steps(
        header,
        bitmap,
        offset,
        data.len() as int,
        force_unit_access,
    );
    let writes = blk_backend::write_steps(header, bitmap, offset, data.len() as int, 0);
    lemma_steps_ran(f, bitmap, steps, data, t, after);
    assert(!writes.contains(CowStep::Reject)) by {
        if writes.contains(CowStep::Reject) {
            let i = choose|i: int| 0 <= i < writes.len() && writes[i] == CowStep::Reject;
            assert(steps[i] == CowStep::Reject);
        }
    }
    lemma_write_from(f, header, bitmap, offset, data, 0);
    if force_unit_access {
        let sync = seq![CowStep::Sync];
        assert(steps =~= writes + sync);
        lemma_steps_concat(f, bitmap, writes, sync, data);
        let g = steps_applied(f, writes, data);
        let bits = bits_after(bitmap, writes);
        reveal_with_fuel(steps_applied, 2);
        reveal_with_fuel(bits_after, 2);
        assert(steps_applied(g, sync, data) == g);
        assert(bits_after(bits, sync) == bits);
    }
}

/// A write through one overlay changes nothing that another overlay over the same base shows.
pub proof fn law_cow_overlays_are_private(
    f: DiskFiles,
    header: CowHeader,
    bitmap: Seq<u8>,
    offset: int,
    data: Seq<u8>,
    force_unit_access: bool,
    t: Seq<DiskEvent>,
    after: Seq<u8>,
    other_overlay: spec_fn(int) -> u8,
    other_header: CowHeader,
    other_bitmap: Seq<u8>,
    i: int,
)
    requires
        layout_ok(header, bitmap),
        0 <= offset,
        data.len() <= usize::MAX,
        offset + data.len() <= header.base_len,
        truthful(f, t),
        blk_backend::cow_write_runs(
            header,
            bitmap,
            offset,
            data,
            force_unit_access,
            t,
            after,
            Ok::<(), BlkBackendError>(()),
        ),
    ensures
        device_byte(
            DiskFiles { overlay: other_overlay, ..files_after(f, t) },
            other_header,
            other_bitmap,
            i,
        ) == device_byte(
            DiskFiles { overlay: other_overlay, ..f },
            other_header,
            other_bitmap,
            i,
        ),
{
    law_cow_read_after_write(f, header, bitmap, offset, data, force_unit_access, t, after);
}

proof fn lemma_read_from(
    f: DiskFiles,
    header: CowHeader,
    bitmap: Seq<u8>,
    offset: int,
    start: int,
    before: Seq<u8>,
    t: Seq<DiskEvent>,
    after: Seq<u8>,
)
    requires
        0 <= offset,
        0 <= start <= before.len(),
        truthful(f, t),
        blk_backend::cow_read_runs(header, bitmap, offset, start, before, t, after, Ok(())),
    ensures
        files_after(f, t) == f,
        after.len() == before.len(),
        forall|i: int| 0 <= i < start ==> #[trigger] after[i] == before[i],
        forall|i: int|
            start <= i < before.len() ==> #[trigger] after[i] == device_byte(
                f,
                header,
                bitmap,
                offset + i,
            ),
    decreases before.len() - start,
{
    if start < before.len() {
        let pos = offset + start;
        let n = blk_backend::segment_len(pos, before.len() - start);
        let b = t[0].bytes_read()->0;
        let mid = blk_backend::spliced(before, start, b);
        assert(b.len() == n);
        assert(event_applied(f, t[0]) == f);
        lemma_read_from(f, header, bitmap, offset, start + n, mid, t.skip(1), after);
        assert forall|i: int| start <= i < before.len() implies #[trigger] after[i] == device_byte(
            f,
            header,
            bitmap,
            offset + i,
        ) by {
            if i < start + n {
                assert(after[i] == mid[i]);
                assert(mid[i] == b[i - start]);
                assert((offset + i) / 512 == pos / 512);
            }
        }
        assert forall|i: int| 0 <= i < start implies #[trigger] after[i] == before[i] by {
            assert(after[i] == mid[i]);
        }
    }
}

/// A read that succeeds gives the bytes of the device, those of written blocks from the overlay
/// and all others from the base, and changes no file.
pub proof fn law_cow_read_gives_device_bytes(
    f: DiskFiles,
    header: CowHeader,
    bitmap: Seq<u8>,
    offset: int,
    before: Seq<u8>,
    t: Seq<DiskEvent>,
    after: Seq<u8>,
)
    requires
        0 <= offset,
        truthful(f, t),
        blk_backend::cow_read_runs(
            header,
            bitmap,
            offset,
            0,
            before,
            t,
            after,
            Ok::<(), BlkBackendError>(()),
        ),
    ensures
        files_after(f, t) == f,
        after.len() == before.len(),
        forall|i: int|
            0 <= i < after.len() ==> #[trigger] after[i] == device_byte(
                f,
                header,
                bitmap,
                offset + i,
            ),
{
    lemma_read_from(f, header, bitmap, offset, 0, before, t, after);
}

/// An overlay that holds the header of its base and a bitmap opens with that bitmap, so the device
/// that was closed is the device that is opened. Opening it changes no file.
pub proof fn law_cow_reopens(
    f: DiskFiles,
    header: CowHeader,
    bitmap: Seq<u8>,
    overlay_len: u64,
    t: Seq<DiskEvent>,
    cow: CowOverlay,
)
    requires
        layout_ok(header, bitmap),
        file_bytes(f.overlay, 0, 4096) == header.encoded(),
        bitmap_stored(f, header, bitmap),
        overlay_len >= 4096,
        truthful(f, t),
        blk_backend::cow_opens(
            overlay_len,
            header.blocks,
            t,
            Ok::<CowOverlay, BlkBackendError>(cow),
        ),
    ensures
        cow.header == header,
        cow.bitmap@ == bitmap,
        files_after(f, t) == f,
{
    law_cow_header_round_trip(header);
    reveal_with_fuel(files_after, 3);
    reveal_with_fuel(truthful, 3);
    assert(event_applied(f, t[0]) == f);
    assert(event_applied(f, t.skip(1)[0]) == f);
    assert(cow.bitmap@ =~= bitmap);
}

/// An overlay that was set up holds the header of its base and marks no block: the device shows
/// the base.
pub proof fn law_cow_starts_as_base(
    f: DiskFiles,
    blocks: u64,
    t: Seq<DiskEvent>,
    cow: CowOverlay,
    i: int,
)
    requires
        truthful(f, t),
        blk_backend::cow_opens(0, blocks, t, Ok::<CowOverlay, BlkBackendError>(cow)),
        0 <= i < cow.header.base_len,
    ensures
        file_bytes(files_after(f, t).overlay, 0, 4096) == cow.header.encoded(),
        bitmap_stored(files_after(f, t), cow.header, cow.bitmap@),
        files_after(f, t).base == f.base,
        device_byte(files_after(f, t), cow.header, cow.bitmap@, i) == (f.base)(i),
{
    let header = CowHeader::laid_out(blocks)->Ok_0;
    let ops = blk_backend::create_ops(header);
    let t4 = t.take(4);
    reveal_with_fuel(disk::ops_ran, 5);
    reveal_with_fuel(files_after, 6);
    reveal_with_fuel(truthful, 6);
    assert(ops.skip(1).skip(1) =~= ops.skip(2));
    assert(ops.skip(2).skip(1) =~= ops.skip(3));
    assert(t4.skip(1).skip(1) =~= t4.skip(2));
    assert(t4.skip(2).skip(1) =~= t4.skip(3));
    assert(t.skip(1).skip(1) =~= t.skip(2));
    assert(t.skip(2).skip(1) =~= t.skip(3));
    assert(t.skip(3).skip(1) =~= t.skip(4));
    assert(t4[0] == t[0] && t4.skip(1)[0] == t[1] && t4.skip(2)[0] == t[2] && t4.skip(3)[0] == t[3]);
    let f1 = event_applied(f, t[0]);
    let f2 = event_applied(f1, t[1]);
    let f3 = event_applied(f2, t[2]);
    assert(t.skip(1)[0] == t[1] && t.skip(2)[0] == t[2] && t.skip(3)[0] == t[3]);
    assert(event_applied(f3, t[3]) == f3);
    assert(event_applied(f3, t.skip(4)[0]) == f3);
    assert(files_after(f, t) == f3);
    law_cow_header_round_trip(header);
    lemma_layout(header, cow.bitmap@);
    assert(file_bytes(f3.overlay, 0, 4096) =~= header.encoded());
    assert forall|j: int| 0 <= j < cow.bitmap@.len() implies cow.bitmap@[j] == 0 && #[trigger] (
    f3.overlay)(header.bitmap_offset + j) == 0 by {
        assert(cow.bitmap@[j] == (f3.overlay)(header.bitmap_offset + j));
    }
    let q = ((i / 512) % 8) as u8;
    assert(0u8 & (1u8 << q) == 0) by (bit_vector);
}

/// Byte `i` of the device that the guest sees.
pub open spec fn storage_byte(f: DiskFiles, storage: StorageView, i: int) -> u8 {
    match storage {
        StorageView::Raw => (f.image)(i),
        StorageView::Cow { header, bitmap } => device_byte(f, header, bitmap, i),
    }
}

/// An overlay is laid out for the backend's size.
pub open spec fn storage_ok(b: BackendView) -> bool {
    match b.storage {
        StorageView::Raw => true,
        StorageView::Cow { header, bitmap } => layout_ok(header, bitmap) && header.blocks
            == b.sectors,
    }
}

/// A write request that succeeded puts its data at its sector. Every other byte of the device
/// stays, and so does the base image.
pub proof fn law_write_is_kept(
    f: DiskFiles,
    before: BackendView,
    header: BlkReqHeader,
    data: Seq<u8>,
    after: BackendView,
    left: Seq<u8>,
)
    requires
        storage_ok(before),
        data.len() <= usize::MAX,
        blk_backend::request_op(header) == req_type::OUT,
        truthful(f, disk::events(before.log, after.log)),
        blk_backend::service_runs(before, header, data, after, left, status::OK),
    ensures
        storage_ok(after),
        files_after(f, disk::events(before.log, after.log)).base == f.base,
        forall|i: int|
            0 <= i < before.sectors * 512 ==> #[trigger] storage_byte(
                files_after(f, disk::events(before.log, after.log)),
                after.storage,
                i,
            ) == (if header.sector * 512 <= i < header.sector * 512 + data.len() {
                data[i - header.sector * 512]
            } else {
                storage_byte(f, before.storage, i)
            }),
{
    let t = disk::events(before.log, after.log);
    let (op, offset, fua) = blk_backend::service_validated(
        header,
        data.len() as int,
        before.sectors,
    )->Ok_0;
    let ok = Ok::<(), BlkBackendError>(());
    assert(blk_backend::storage_writes(
        before.storage,
        offset as int,
        data,
        fua,
        t,
        after.storage,
        ok,
    ));
    match before.storage {
        StorageView::Raw => {
            reveal_with_fuel(disk::ops_ran, 3);
            reveal_with_fuel(files_after, 3);
            let g = event_applied(f, t[0]);
            assert(files_after(f, t) == g) by {
                if t.len() == 2 {
                    assert(event_applied(g, t.skip(1)[0]) == g);
                }
            }
        },
        StorageView::Cow { header: h, bitmap } => {
            let b2 = after.storage->bitmap;
            law_cow_read_after_write(f, h, bitmap, offset as int, data, fua, t, b2);
            assert forall|i: int| 0 <= i < before.sectors * 512 implies #[trigger] storage_byte(
                files_after(f, t),
                after.storage,
                i,
            ) == (if offset <= i < offset + data.len() {
                data[i - offset]
            } else {
                storage_byte(f, before.storage, i)
            }) by {
                assert(device_byte(files_after(f, t), h, b2, i) == (if offset <= i < offset
                    + data.len() {
                    data[i - offset]
                } else {
                    device_byte(f, h, bitmap, i)
                }));
            }
        },
    }
}

/// A read request that succeeded gives the bytes of the device from its sector on, and changes
/// neither the device nor a file.
pub proof fn law_read_gives_the_device(
    f: DiskFiles,
    before: BackendView,
    header: BlkReqHeader,
    buf: Seq<u8>,
    after: BackendView,
    left: Seq<u8>,
)
    requires
        storage_ok(before),
        blk_backend::request_op(header) == req_type::IN,
        truthful(f, disk::events(before.log, after.log)),
        blk_backend::service_runs(before, header, buf, after, left, status::OK),
    ensures
        after.storage == before.storage,
        files_after(f, disk::events(before.log, after.log)) == f,
        left.len() == buf.len(),
        forall|i: int|
            0 <= i < left.len() ==> #[trigger] left[i] == storage_byte(
                f,
                before.storage,
                header.sector * 512 + i,
            ),
{
    let t = disk::events(before.log, after.log);
    let (op, offset, fua) = blk_backend::service_validated(
        header,
        buf.len() as int,
        before.sectors,
    )->Ok_0;
    let r = choose|r: Result<(), BlkBackendError>|
        #[trigger] blk_backend::storage_reads(before.storage, offset as int, buf, t, left, r)
            && blk_backend::status_of(r) == status::OK;
    assert(blk_backend::storage_reads(before.storage, offset as int, buf, t, left, r));
    assert(r is Ok);
    assert(r->Ok_0 == ());
    match before.storage {
        StorageView::Raw => {
            reveal_with_fuel(files_after, 2);
            assert(event_applied(f, t[0]) == f);
        },
        StorageView::Cow { header: h, bitmap } => {
            law_cow_read_gives_device_bytes(f, h, bitmap, offset as int, buf, t, left);
        },
    }
}

/// What a write stored, a read of the same sectors gives back.
pub proof fn law_read_back(
    f: DiskFiles,
    before: BackendView,
    write: BlkReqHeader,
    data: Seq<u8>,
    mid: BackendView,
    kept: Seq<u8>,
    read: BlkReqHeader,
    buf: Seq<u8>,
    after: BackendView,
    left: Seq<u8>,
)
    requires
        storage_ok(before),
        data.len() <= usize::MAX,
        blk_backend::request_op(write) == req_type::OUT,
        blk_backend::request_op(read) == req_type::IN,
        read.sector == write.sector,
        buf.len() == data.len(),
        truthful(f, disk::events(before.log, mid.log)),
        truthful(
            files_after(f, disk::events(before.log, mid.log)),
            disk::events(mid.log, after.log),
        ),
        blk_backend::service_runs(before, write, data, mid, kept, status::OK),
        blk_backend::service_runs(mid, read, buf, after, left, status::OK),
    ensures
        left == data,
{
    let g = files_after(f, disk::events(before.log, mid.log));
    law_write_is_kept(f, before, write, data, mid, kept);
    law_read_gives_the_device(g, mid, read, buf, after, left);
    assert forall|i: int| 0 <= i < data.len() implies left[i] == data[i] by {
        let at = write.sector * 512 + i;
        assert(storage_byte(g, mid.storage, at) == data[i]);
    }
    assert(left =~= data);
}

/// No operation on the files failed, and no read gave another number of bytes than was asked for.
pub open spec fn healthy(t: Seq<DiskEvent>) -> bool {
    forall|j: int| 0 <= j < t.len() ==> went_well(#[trigger] t[j])
}

/// The operation succeeded, in full where it is a read.
pub open spec fn went_well(e: DiskEvent) -> bool {
    e.ok() && (e.op is Read ==> e.bytes_read() is Some)
}

/// A request for `len` bytes lies within the device, and every byte of the device has a place in
/// its file that 64 bits can name.
pub open spec fn in_range(b: BackendView, header: BlkReqHeader, len: int) -> bool {
    &&& b.sectors * 512 <= u64::MAX
    &&& b.storage matches StorageView::Cow { header: h, .. } ==> h.data_offset + h.blocks * 512
        <= u64::MAX
    &&& header.sector < b.sectors
    &&& header.sector * 512 + len <= b.sectors * 512
}

proof fn lemma_in_range(b: BackendView, header: BlkReqHeader, len: int)
    requires
        in_range(b, header, len),
        len >= 0,
        blk_backend::request_op(header) == req_type::IN || blk_backend::request_op(header)
            == req_type::OUT,
    ensures
        blk_backend::service_validated(header, len, b.sectors) == Ok::<
            (u32, u64, bool),
            ValidationError,
        >(
            (
                blk_backend::request_op(header),
                (header.sector * 512) as u64,
                blk_backend::request_fua(header),
            ),
        ),
{
}

/// Reading bytes of the device through the overlay succeeds where no operation on a file fails.
proof fn lemma_read_succeeds(
    header: CowHeader,
    bitmap: Seq<u8>,
    offset: int,
    start: int,
    before: Seq<u8>,
    t: Seq<DiskEvent>,
    after: Seq<u8>,
    r: Result<(), BlkBackendError>,
)
    requires
        header.data_offset + header.blocks * 512 <= u64::MAX,
        0 <= offset,
        0 <= start,
        offset + before.len() <= header.blocks * 512,
        healthy(t),
        blk_backend::cow_read_runs(header, bitmap, offset, start, before, t, after, r),
    ensures
        r is Ok,
    decreases before.len() - start,
{
    if start < before.len() {
        let n = blk_backend::segment_len(offset + start, before.len() - start);
        assert(went_well(t[0]));
        assert forall|j: int| 0 <= j < t.skip(1).len() implies went_well(
            #[trigger] t.skip(1)[j],
        ) by {
            assert(t.skip(1)[j] == t[j + 1]);
        }
        lemma_read_succeeds(
            header,
            bitmap,
            offset,
            start + n,
            blk_backend::spliced(before, start, t[0].bytes_read()->0),
            t.skip(1),
            after,
            r,
        );
    }
}

/// No step of a write within the device is refused.
proof fn lemma_no_reject(
    header: CowHeader,
    bitmap: Seq<u8>,
    offset: int,
    total: int,
    start: int,
    j: int,
)
    requires
        header.data_offset + header.blocks * 512 <= u64::MAX,
        0 <= offset,
        0 <= start,
        offset + total <= header.blocks * 512,
        0 <= j < blk_backend::write_steps(header, bitmap, offset, total, start).len(),
    ensures
        !(blk_backend::write_steps(header, bitmap, offset, total, start)[j] is Reject),
    decreases total - start,
{
    let pos = offset + start;
    let block = pos / 512;
    let n = blk_backend::segment_len(pos, total - start);
    let now = blk_backend::segment_steps(header, bitmap, pos, n, start);
    let next = if blk_backend::bit_set(bitmap, block) {
        bitmap
    } else {
        blk_backend::with_bit(bitmap, block)
    };
    if j >= now.len() {
        lemma_no_reject(header, next, offset, total, start + n, j - now.len());
    }
}

/// Steps of which none is refused succeed where no operation on a file fails.
proof fn lemma_steps_succeed(
    bitmap: Seq<u8>,
    steps: Seq<CowStep>,
    data: Seq<u8>,
    t: Seq<DiskEvent>,
    after: Seq<u8>,
    failed: Option<CowStep>,
)
    requires
        forall|j: int| 0 <= j < steps.len() ==> !(#[trigger] steps[j] is Reject),
        healthy(t),
        blk_backend::steps_ran(bitmap, steps, data, t, after, failed),
    ensures
        failed is None,
    decreases steps.len(),
{
    if steps.len() > 0 {
        let n = blk_backend::step_events(steps[0], t);
        assert(!(steps[0] is Reject));
        let first = t.take(n);
        assert(first[0] == t[0]);
        assert(went_well(t[0]));
        if n == 2 {
            assert(first[1] == t[1]);
            assert(went_well(t[1]));
        }
        assert forall|j: int| 0 <= j < t.skip(n).len() implies went_well(
            #[trigger] t.skip(n)[j],
        ) by {
            assert(t.skip(n)[j] == t[j + n]);
        }
        assert forall|j: int| 0 <= j < steps.skip(1).len() implies !(
        #[trigger] steps.skip(1)[j] is Reject) by {
            assert(steps.skip(1)[j] == steps[j + 1]);
        }
        lemma_steps_succeed(
            blk_backend::marked(bitmap, steps[0]),
            steps.skip(1),
            data,
            t.skip(n),
            after,
            failed,
        );
    }
}

/// A read or write within the device succeeds wherever no operation on a file fails, on a raw
/// image and through an overlay alike. A write needs a device that is not read-only.
pub proof fn law_request_in_range_succeeds(
    before: BackendView,
    header: BlkReqHeader,
    data: Seq<u8>,
    after: BackendView,
    left: Seq<u8>,
    st: u8,
)
    requires
        storage_ok(before),
        in_range(before, header, data.len() as int),
        blk_backend::request_op(header) == req_type::IN || (blk_backend::request_op(header)
            == req_type::OUT && !before.read_only),
        healthy(disk::events(before.log, after.log)),
        blk_backend::service_runs(before, header, data, after, left, st),
    ensures
        st == status::OK,
{
    let t = disk::events(before.log, after.log);
    let offset = header.sector * 512;
    lemma_in_range(before, header, data.len() as int);
    if blk_backend::request_op(header) == req_type::IN {
        let r = choose|r: Result<(), BlkBackendError>|
            #[trigger] blk_backend::storage_reads(before.storage, offset, data, t, left, r)
                && after.storage == before.storage && st == blk_backend::status_of(r);
        assert(blk_backend::storage_reads(before.storage, offset, data, t, left, r));
        match before.storage {
            StorageView::Raw => {
                assert(went_well(t[0]));
            },
            StorageView::Cow { header: h, bitmap } => {
                lemma_read_succeeds(h, bitmap, offset, 0, data, t, left, r);
            },
        }
    } else {
        let fua = blk_backend::request_fua(header);
        let r = choose|r: Result<(), BlkBackendError>|
            #[trigger] blk_backend::storage_writes(
                before.storage,
                offset,
                data,
                fua,
                t,
                after.storage,
                r,
            ) && left == data && st == blk_backend::status_of(r);
        assert(blk_backend::storage_writes(
            before.storage,
            offset,
            data,
            fua,
            t,
            after.storage,
            r,
        ));
        match before.storage {
            StorageView::Raw => {
                reveal_with_fuel(disk::ops_ran, 3);
                assert(went_well(t[0]));
                if fua {
                    assert(t.len() >= 2);
                    assert(t.skip(1)[0] == t[1]);
                    assert(went_well(t[1]));
                }
            },
            StorageView::Cow { header: h, bitmap } => {
                let b2 = after.storage->bitmap;
                let steps = blk_backend::request_steps(
                    h,
                    bitmap,
                    offset,
                    data.len() as int,
                    fua,
                );
                assert forall|j: int| 0 <= j < steps.len() implies !(#[trigger] steps[j] is Reject) by {
                    let front = blk_backend::write_steps(h, bitmap, offset, data.len() as int, 0);
                    if j < front.len() {
                        lemma_no_reject(h, bitmap, offset, data.len() as int, 0, j);
                    }
                }
                match r {
                    Ok(_) => {},
                    Err(BlkBackendError::Io) => {
                        let k = choose|k: int|
                            0 <= k < steps.len() && !(steps[k] is Reject)
                                && #[trigger] blk_backend::steps_ran(
                                bitmap,
                                steps,
                                data,
                                t,
                                b2,
                                Some(steps[k]),
                            );
                        lemma_steps_succeed(bitmap, steps, data, t, b2, Some(steps[k]));
                    },
                    Err(_) => {
                        lemma_steps_succeed(bitmap, steps, data, t, b2, Some(CowStep::Reject));
                    },
                }
            },
        }
    }
}

/// After a write that succeeded, a read of any bytes of the device succeeds wherever no operation
/// on a file fails, and gives the bytes that were written where they were, and what the device
/// held before everywhere else. The length of neither need be a whole number of sectors.
pub proof fn law_read_sees_the_write(
    f: DiskFiles,
    before: BackendView,
    write: BlkReqHeader,
    data: Seq<u8>,
    mid: BackendView,
    kept: Seq<u8>,
    read: BlkReqHeader,
    buf: Seq<u8>,
    after: BackendView,
    left: Seq<u8>,
    st: u8,
)
    requires
        storage_ok(before),
        data.len() <= usize::MAX,
        blk_backend::request_op(write) == req_type::OUT,
        blk_backend::request_op(read) == req_type::IN,
        in_range(mid, read, buf.len() as int),
        truthful(f, disk::events(before.log, mid.log)),
        truthful(
            files_after(f, disk::events(before.log, mid.log)),
            disk::events(mid.log, after.log),
        ),
        healthy(disk::events(mid.log, after.log)),
        blk_backend::service_runs(before, write, data, mid, kept, status::OK),
        blk_backend::service_runs(mid, read, buf, after, left, st),
    ensures
        st == status::OK,
        left.len() == buf.len(),
        forall|i: int|
            0 <= i < left.len() ==> #[trigger] left[i] == ({
                let at = read.sector * 512 + i;
                if write.sector * 512 <= at < write.sector * 512 + data.len() {
                    data[at - write.sector * 512]
                } else {
                    storage_byte(f, before.storage, at)
                }
            }),
        files_after(f, disk::events(before.log, mid.log)).base == f.base,
{
    let g = files_after(f, disk::events(before.log, mid.log));
    law_write_is_kept(f, before, write, data, mid, kept);
    law_request_in_range_succeeds(mid, read, buf, after, left, st);
    law_read_gives_the_device(g, mid, read, buf, after, left);
    assert forall|i: int| 0 <= i < left.len() implies #[trigger] left[i] == ({
        let at = read.sector * 512 + i;
        if write.sector * 512 <= at < write.sector * 512 + data.len() {
            data[at - write.sector * 512]
        } else {
            storage_byte(f, before.storage, at)
        }
    }) by {
        let at = read.sector * 512 + i;
        assert(left[i] == storage_byte(g, mid.storage, at));
    }
}

/// A write to the overlay changes no other file, however far it comes.
proof fn lemma_steps_spare(
    bitmap: Seq<u8>,
    steps: Seq<CowStep>,
    data: Seq<u8>,
    t: Seq<DiskEvent>,
    after: Seq<u8>,
    failed: Option<CowStep>,
    file: DiskFile,
)
    requires
        blk_backend::steps_ran(bitmap, steps, data, t, after, failed),
        file != DiskFile::Overlay,
    ensures
        spares(t, file),
    decreases steps.len(),
{
    if steps.len() > 0 {
        let n = blk_backend::step_events(steps[0], t);
        let first = t.take(n);
        if blk_backend::step_succeeded(steps[0], first) {
            lemma_steps_spare(
                blk_backend::marked(bitmap, steps[0]),
                steps.skip(1),
                data,
                t.skip(n),
                after,
                failed,
                file,
            );
        }
        assert forall|j: int| 0 <= j < t.len() implies !alters((#[trigger] t[j]).op, file) by {
            if j < n {
                assert(first[j] == t[j]);
            } else {
                assert(t.skip(n)[j - n] == t[j]);
            }
        }
    }
}

/// A read through the overlay changes no file.
proof fn lemma_read_spares(
    header: CowHeader,
    bitmap: Seq<u8>,
    offset: int,
    start: int,
    before: Seq<u8>,
    t: Seq<DiskEvent>,
    after: Seq<u8>,
    r: Result<(), BlkBackendError>,
    file: DiskFile,
)
    requires
        blk_backend::cow_read_runs(header, bitmap, offset, start, before, t, after, r),
    ensures
        spares(t, file),
    decreases before.len() - start,
{
    if t.len() > 0 && t[0].bytes_read() is Some {
        let n = blk_backend::segment_len(offset + start, before.len() - start);
        lemma_read_spares(
            header,
            bitmap,
            offset,
            start + n,
            blk_backend::spliced(before, start, t[0].bytes_read()->0),
            t.skip(1),
            after,
            r,
            file,
        );
        assert forall|j: int| 0 <= j < t.len() implies !alters((#[trigger] t[j]).op, file) by {
            if j > 0 {
                assert(t.skip(1)[j - 1] == t[j]);
            }
        }
    }
}

/// No request changes the base image, whatever it asks for and however it ends.
pub proof fn law_base_is_never_changed(
    before: BackendView,
    header: BlkReqHeader,
    data: Seq<u8>,
    after: BackendView,
    left: Seq<u8>,
    st: u8,
)
    requires
        blk_backend::service_runs(before, header, data, after, left, st),
    ensures
        spares(disk::events(before.log, after.log), DiskFile::Base),
{
    lemma_service_spares(before, header, data, after, left, st, DiskFile::Base);
}

/// No request to a read-only device changes a file, and a write to it is refused.
pub proof fn law_read_only_is_never_changed(
    before: BackendView,
    header: BlkReqHeader,
    data: Seq<u8>,
    after: BackendView,
    left: Seq<u8>,
    st: u8,
    file: DiskFile,
)
    requires
        before.read_only,
        blk_backend::service_runs(before, header, data, after, left, st),
    ensures
        spares(disk::events(before.log, after.log), file),
        after.storage == before.storage,
        blk_backend::request_op(header) == req_type::OUT ==> st == status::IO_ERR,
{
    lemma_service_spares(before, header, data, after, left, st, file);
}

proof fn lemma_service_spares(
    before: BackendView,
    header: BlkReqHeader,
    data: Seq<u8>,
    after: BackendView,
    left: Seq<u8>,
    st: u8,
    file: DiskFile,
)
    requires
        before.read_only || file == DiskFile::Base,
        blk_backend::service_runs(before, header, data, after, left, st),
    ensures
        spares(disk::events(before.log, after.log), file),
{
    let t = disk::events(before.log, after.log);
    if let Ok((op, offset, fua)) = blk_backend::service_validated(
        header,
        data.len() as int,
        before.sectors,
    ) {
        if op == req_type::IN {
            let r = choose|r: Result<(), BlkBackendError>|
                #[trigger] blk_backend::storage_reads(
                    before.storage,
                    offset as int,
                    data,
                    t,
                    left,
                    r,
                ) && after.storage == before.storage && st == blk_backend::status_of(r);
            if let StorageView::Cow { header: h, bitmap } = before.storage {
                lemma_read_spares(h, bitmap, offset as int, 0, data, t, left, r, file);
            }
        } else if op == req_type::OUT && !before.read_only {
            let r = choose|r: Result<(), BlkBackendError>|
                #[trigger] blk_backend::storage_writes(
                    before.storage,
                    offset as int,
                    data,
                    fua,
                    t,
                    after.storage,
                    r,
                ) && left == data && st == blk_backend::status_of(r);
            match before.storage {
                StorageView::Raw => {
                    reveal_with_fuel(disk::ops_ran, 3);
                    assert forall|j: int| 0 <= j < t.len() implies !alters(
                        (#[trigger] t[j]).op,
                        file,
                    ) by {
                        if j == 1 {
                            assert(t.skip(1)[0] == t[1]);
                        }
                    }
                },
                StorageView::Cow { header: h, bitmap } => {
                    let b2 = after.storage->bitmap;
                    let steps = blk_backend::request_steps(
                        h,
                        bitmap,
                        offset as int,
                        data.len() as int,
                        fua,
                    );
                    let failed = choose|failed: Option<CowStep>|
                        #[trigger] blk_backend::steps_ran(bitmap, steps, data, t, b2, failed);
                    lemma_steps_spare(bitmap, steps, data, t, b2, failed, file);
                },
            }
        }
    }
}

} // verus!
