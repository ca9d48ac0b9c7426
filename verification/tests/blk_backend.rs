use std::sync::{Arc, Mutex};
use vmm_devices::virtio::blk::{req_type, status, BlkReqHeader};
use vmm_devices::virtio::blk_backend::{
    align_up, bitmap_len, validate_overlay_header, validate_unused_bitmap_bits, BlkBackend,
    BlkBackendError, BlockSegments, CowHeader, DiskFile, DiskOp, ValidationError, COW_HEADER_LEN,
    VIRTIO_BLK_T_BARRIER,
};

const SECTOR_SIZE_USIZE: usize = 512;

/// A file in memory.
type MemFile = Arc<Mutex<Vec<u8>>>;

fn mem_file(bytes: Vec<u8>) -> MemFile {
    Arc::new(Mutex::new(bytes))
}

fn run(file: &MemFile, op: &DiskOp) -> Option<Vec<u8>> {
    let mut bytes = file.lock().unwrap();
    match op {
        DiskOp::Read { offset, len, .. } => {
            let start = *offset as usize;
            bytes.get(start..start + len).map(|part| part.to_vec())
        }
        DiskOp::Write { offset, data, .. } => {
            let start = *offset as usize;
            if bytes.len() < start + data.len() {
                bytes.resize(start + data.len(), 0);
            }
            bytes[start..start + data.len()].copy_from_slice(data);
            Some(Vec::new())
        }
        DiskOp::SetLen { size, .. } => {
            bytes.resize(*size as usize, 0);
            Some(Vec::new())
        }
        DiskOp::SyncData { .. } | DiskOp::SyncAll { .. } => Some(Vec::new()),
    }
}

fn file_of(op: &DiskOp) -> DiskFile {
    match op {
        DiskOp::Read { file, .. }
        | DiskOp::Write { file, .. }
        | DiskOp::SetLen { file, .. }
        | DiskOp::SyncData { file }
        | DiskOp::SyncAll { file } => *file,
    }
}

fn raw_io(image: MemFile) -> impl Fn(DiskOp) -> Option<Vec<u8>> {
    move |op| {
        assert_eq!(file_of(&op), DiskFile::Image);
        run(&image, &op)
    }
}

fn cow_io(base: MemFile, overlay: MemFile) -> impl Fn(DiskOp) -> Option<Vec<u8>> {
    move |op| match file_of(&op) {
        DiskFile::Base => {
            assert!(matches!(op, DiskOp::Read { .. }), "the base is read only");
            run(&base, &op)
        }
        DiskFile::Overlay => run(&overlay, &op),
        DiskFile::Image => panic!("no image"),
    }
}

fn open_raw(image: &MemFile, read_only: bool) -> BlkBackend<impl Fn(DiskOp) -> Option<Vec<u8>>> {
    let len = image.lock().unwrap().len() as u64;
    BlkBackend::open(raw_io(image.clone()), len, read_only)
}

fn open_cow(
    base: &MemFile,
    overlay: &MemFile,
) -> BlkBackend<impl Fn(DiskOp) -> Option<Vec<u8>>> {
    let base_len = base.lock().unwrap().len() as u64;
    let overlay_len = overlay.lock().unwrap().len() as u64;
    BlkBackend::open_cow(cow_io(base.clone(), overlay.clone()), base_len, overlay_len).unwrap()
}

fn hdr(req_type: u32, sector: u64) -> BlkReqHeader {
    BlkReqHeader {
        req_type,
        reserved: 0,
        sector,
    }
}

fn block_pattern(patterns: &[u8]) -> MemFile {
    let mut bytes = Vec::new();
    for pattern in patterns {
        bytes.extend_from_slice(&[*pattern; SECTOR_SIZE_USIZE]);
    }
    mem_file(bytes)
}

fn service_read<IO: Fn(DiskOp) -> Option<Vec<u8>>>(
    backend: &mut BlkBackend<IO>,
    sector: u64,
    len: usize,
) -> Vec<u8> {
    let mut data = vec![0u8; len];
    let status = backend.service(&hdr(req_type::IN, sector), &mut data);
    assert_eq!(status, status::OK);
    data
}

fn service_write<IO: Fn(DiskOp) -> Option<Vec<u8>>>(
    backend: &mut BlkBackend<IO>,
    sector: u64,
    data: &[u8],
) {
    let mut data = data.to_vec();
    let status = backend.service(&hdr(req_type::OUT, sector), &mut data);
    assert_eq!(status, status::OK);
}

#[test]
fn service_read_returns_data() {
    let image = mem_file(vec![0xAA; 512]);
    let mut backend = open_raw(&image, false);

    let mut data = vec![0u8; 512];
    let status = backend.service(&hdr(req_type::IN, 0), &mut data);
    assert_eq!(status, status::OK);
    assert!(data.iter().all(|&b| b == 0xAA));
}

#[test]
fn service_write_persists() {
    let image = mem_file(vec![0u8; 512]);
    let mut backend = open_raw(&image, false);

    let mut data = vec![0xBB; 512];
    let status = backend.service(&hdr(req_type::OUT, 0), &mut data);
    assert_eq!(status, status::OK);

    // Re-read to verify.
    let mut buf = vec![0u8; 512];
    backend.service(&hdr(req_type::IN, 0), &mut buf);
    assert!(buf.iter().all(|&b| b == 0xBB));
}

#[test]
fn read_only_rejects_write() {
    let image = mem_file(vec![0u8; 512]);
    let mut backend = open_raw(&image, true);

    let mut data = vec![0xCC; 512];
    let status = backend.service(&hdr(req_type::OUT, 0), &mut data);
    assert_eq!(status, status::IO_ERR);
}

#[test]
fn flush_returns_ok() {
    let image = mem_file(vec![0u8; 512]);
    let mut backend = open_raw(&image, false);

    let status = backend.service(&hdr(req_type::FLUSH, 0), &mut Vec::new());
    assert_eq!(status, status::OK);
}

#[test]
fn cow_write_goes_to_overlay_and_leaves_base_unchanged() {
    let base = block_pattern(&[0x11, 0x22]);
    let overlay = mem_file(Vec::new());
    let original_base = base.lock().unwrap().clone();

    let mut backend = open_cow(&base, &overlay);
    service_write(&mut backend, 0, &[0xAA; SECTOR_SIZE_USIZE]);
    assert_eq!(
        backend.service(&hdr(req_type::FLUSH, 0), &mut Vec::new()),
        status::OK
    );

    assert_eq!(*base.lock().unwrap(), original_base);

    let bytes = overlay.lock().unwrap().clone();
    let header = CowHeader::decode(&bytes[..COW_HEADER_LEN]).unwrap();
    let at = header.data_offset as usize;
    assert_eq!(bytes[at..at + SECTOR_SIZE_USIZE], [0xAA; SECTOR_SIZE_USIZE]);
}

#[test]
fn cow_reads_unwritten_blocks_from_base_and_written_blocks_from_overlay() {
    let base = block_pattern(&[0x10, 0x20, 0x30]);
    let overlay = mem_file(Vec::new());

    let mut backend = open_cow(&base, &overlay);
    assert_eq!(
        service_read(&mut backend, 1, SECTOR_SIZE_USIZE),
        [0x20; 512]
    );

    service_write(&mut backend, 1, &[0xCC; SECTOR_SIZE_USIZE]);
    assert_eq!(
        service_read(&mut backend, 1, SECTOR_SIZE_USIZE),
        [0xCC; 512]
    );
    assert_eq!(
        service_read(&mut backend, 2, SECTOR_SIZE_USIZE),
        [0x30; 512]
    );
}

#[test]
fn cow_overlay_dirty_bitmap_persists_after_reopen() {
    let base = block_pattern(&[0x10, 0x20]);
    let overlay = mem_file(Vec::new());

    {
        let mut backend = open_cow(&base, &overlay);
        service_write(&mut backend, 1, &[0xDD; SECTOR_SIZE_USIZE]);
        assert_eq!(
            backend.service(&hdr(req_type::FLUSH, 0), &mut Vec::new()),
            status::OK
        );
    }

    let mut reopened = open_cow(&base, &overlay);
    assert_eq!(
        service_read(&mut reopened, 0, SECTOR_SIZE_USIZE),
        [0x10; 512]
    );
    assert_eq!(
        service_read(&mut reopened, 1, SECTOR_SIZE_USIZE),
        [0xDD; 512]
    );
}

#[test]
fn cow_two_overlays_share_base_but_keep_private_writes() {
    let base = block_pattern(&[0x44]);
    let overlay_a = mem_file(Vec::new());
    let overlay_b = mem_file(Vec::new());
    let original_base = base.lock().unwrap().clone();

    let mut a = open_cow(&base, &overlay_a);
    let mut b = open_cow(&base, &overlay_b);
    service_write(&mut a, 0, &[0xA1; SECTOR_SIZE_USIZE]);
    service_write(&mut b, 0, &[0xB2; SECTOR_SIZE_USIZE]);

    assert_eq!(service_read(&mut a, 0, SECTOR_SIZE_USIZE), [0xA1; 512]);
    assert_eq!(service_read(&mut b, 0, SECTOR_SIZE_USIZE), [0xB2; 512]);
    assert_eq!(*base.lock().unwrap(), original_base);
}

#[test]
fn cow_restore_clones_do_not_cross_talk_or_modify_base() {
    let base = block_pattern(&[0x44, 0x55, 0x66, 0x77]);
    let overlay_a = mem_file(Vec::new());
    let overlay_b = mem_file(Vec::new());
    let original_base = base.lock().unwrap().clone();

    {
        let mut a = open_cow(&base, &overlay_a);
        service_write(&mut a, 1, &[0xA1; SECTOR_SIZE_USIZE]);
        assert_eq!(
            a.service(&hdr(req_type::FLUSH, 0), &mut Vec::new()),
            status::OK
        );
    }

    let mut b = open_cow(&base, &overlay_b);
    assert_eq!(
        service_read(&mut b, 1, SECTOR_SIZE_USIZE),
        [0x55; SECTOR_SIZE_USIZE],
        "clone B must see base data, not clone A's overlay write"
    );
    assert_eq!(*base.lock().unwrap(), original_base);
}

#[test]
fn cow_open_creates_missing_sparse_overlay() {
    let base = block_pattern(&[0x10; 16]);
    let overlay = mem_file(Vec::new());

    let backend = open_cow(&base, &overlay);

    assert!(!overlay.lock().unwrap().is_empty());
    assert_eq!(backend.sectors, 16);
    assert!(
        overlay.lock().unwrap().len() < base.lock().unwrap().len(),
        "new overlay should contain only metadata until sectors are dirtied"
    );
}

#[test]
fn cow_flush_and_fua_sync_overlay_without_error() {
    let base = block_pattern(&[0x55]);
    let overlay = mem_file(Vec::new());

    let mut backend = open_cow(&base, &overlay);
    let mut data = vec![0xEF; SECTOR_SIZE_USIZE];
    let status = backend.service(&hdr(req_type::OUT | VIRTIO_BLK_T_BARRIER, 0), &mut data);
    assert_eq!(status, status::OK);
    assert_eq!(
        backend.service(&hdr(req_type::FLUSH, 0), &mut Vec::new()),
        status::OK
    );

    drop(backend);
    let mut reopened = open_cow(&base, &overlay);
    assert_eq!(
        service_read(&mut reopened, 0, SECTOR_SIZE_USIZE),
        [0xEF; 512]
    );
}

#[test]
fn cow_partial_write_preserves_base_bytes_and_handles_last_block() {
    let base = block_pattern(&[0x10, 0x20, 0x30]);
    let overlay = mem_file(Vec::new());

    let mut backend = open_cow(&base, &overlay);
    service_write(&mut backend, 1, &[0x99; 600]);

    let sector_one = service_read(&mut backend, 1, SECTOR_SIZE_USIZE);
    assert_eq!(sector_one, [0x99; 512]);

    let sector_two = service_read(&mut backend, 2, SECTOR_SIZE_USIZE);
    assert_eq!(&sector_two[..88], &[0x99; 88]);
    assert_eq!(&sector_two[88..], &[0x30; SECTOR_SIZE_USIZE - 88]);
}

#[test]
fn cow_rejects_request_that_crosses_device_end() {
    let base = block_pattern(&[0x10, 0x20]);
    let overlay = mem_file(Vec::new());

    let mut backend = open_cow(&base, &overlay);
    let mut data = vec![0x77; SECTOR_SIZE_USIZE + 1];
    let status = backend.service(&hdr(req_type::OUT, 1), &mut data);
    assert_eq!(status, status::IO_ERR);
}

#[test]
fn fua_syncs_the_overlay_and_a_failing_disk_is_an_io_error() {
    let base = block_pattern(&[0x55, 0x66]);
    let overlay = mem_file(Vec::new());
    let synced = Arc::new(Mutex::new(0u32));
    let io = {
        let inner = cow_io(base.clone(), overlay.clone());
        let synced = synced.clone();
        move |op: DiskOp| {
            if matches!(op, DiskOp::SyncData { .. } | DiskOp::SyncAll { .. }) {
                *synced.lock().unwrap() += 1;
            }
            inner(op)
        }
    };
    let mut backend = BlkBackend::open_cow(io, 1024, 0).unwrap();
    let before = *synced.lock().unwrap();
    let mut data = vec![1; 512];
    assert_eq!(
        backend.service(&hdr(req_type::OUT | VIRTIO_BLK_T_BARRIER, 0), &mut data),
        status::OK
    );
    assert!(*synced.lock().unwrap() > before);

    let mut broken = BlkBackend::open(|_op: DiskOp| None, 1024, false);
    let mut data = vec![0; 512];
    assert_eq!(broken.service(&hdr(req_type::IN, 0), &mut data), status::IO_ERR);
    assert_eq!(data, vec![0; 512]);
}

#[test]
fn overlay_header_round_trips_and_each_field_is_checked() {
    let h = CowHeader::new(100).unwrap();
    assert_eq!(h.blocks, 100);
    assert_eq!(h.base_len, 51200);
    let bytes = h.encode();
    assert_eq!(bytes.len(), COW_HEADER_LEN);
    assert_eq!(CowHeader::decode(&bytes), Ok(h));
    assert!(validate_overlay_header(h, h).is_ok());
    let other = CowHeader::new(101).unwrap();
    assert!(validate_overlay_header(h, other).is_err());
    let mut torn = bytes.clone();
    torn[0] ^= 1;
    assert!(CowHeader::decode(&torn).is_err());
}

#[test]
fn bitmap_sizes_and_alignment() {
    assert_eq!(bitmap_len(0), Ok(0));
    assert_eq!(bitmap_len(1), Ok(1));
    assert_eq!(bitmap_len(8), Ok(1));
    assert_eq!(bitmap_len(9), Ok(2));
    assert_eq!(align_up(1, 4096), Ok(4096));
    assert_eq!(align_up(4096, 4096), Ok(4096));
    assert!(align_up(u64::MAX, 4096).is_err());
    assert!(validate_unused_bitmap_bits(&[0b0000_0111], 3).is_ok());
    assert!(validate_unused_bitmap_bits(&[0b0000_1111], 3).is_err());
}

#[test]
fn a_range_is_cut_at_block_boundaries() {
    let mut segments = BlockSegments::new(500, 1000);
    let mut seen = Vec::new();
    while let Some(s) = segments.next() {
        seen.push((s.block, s.within_block, s.buffer_offset, s.len));
    }
    assert_eq!(
        seen,
        vec![(0, 500, 0, 12), (1, 0, 12, 512), (2, 0, 524, 476)]
    );
}

#[test]
fn an_overlay_of_another_base_is_refused() {
    let base = block_pattern(&[1, 2]);
    let overlay = mem_file(Vec::new());
    drop(open_cow(&base, &overlay));
    let larger = block_pattern(&[1, 2, 3]);
    let len = overlay.lock().unwrap().len() as u64;
    let r = BlkBackend::open_cow(cow_io(larger, overlay.clone()), 1536, len);
    assert!(matches!(r, Err(BlkBackendError::Validation(_))));
    let short = BlkBackend::open_cow(cow_io(base, overlay), 1024, 10);
    assert!(matches!(
        short,
        Err(BlkBackendError::Validation(ValidationError::OverlayTooSmall))
    ));
}

#[test]
fn an_unreadable_base_is_an_io_error() {
    let overlay = mem_file(Vec::new());
    let io = {
        let overlay = overlay.clone();
        move |op: DiskOp| match file_of(&op) {
            DiskFile::Overlay => run(&overlay, &op),
            _ => None,
        }
    };
    let mut backend = BlkBackend::open_cow(io, 1024, 0).unwrap();
    let mut data = vec![0; 512];
    assert_eq!(backend.service(&hdr(req_type::IN, 0), &mut data), status::IO_ERR);
}

#[test]
fn a_write_that_fails_half_way_leaves_the_base_alone() {
    for healthy in 0..4u32 {
        let base = block_pattern(&[0x11, 0x22]);
        let overlay = mem_file(Vec::new());
        let left = Arc::new(Mutex::new(u32::MAX));
        let io = {
            let inner = cow_io(base.clone(), overlay.clone());
            let left = left.clone();
            move |op: DiskOp| {
                let mut left = left.lock().unwrap();
                if *left == 0 {
                    return None;
                }
                *left -= 1;
                inner(op)
            }
        };
        let mut backend = BlkBackend::open_cow(io, 1024, 0).unwrap();
        *left.lock().unwrap() = healthy;
        let mut data = vec![0xaa; 100];
        assert_eq!(backend.service(&hdr(req_type::OUT, 0), &mut data), status::IO_ERR);
        assert_eq!(*base.lock().unwrap(), *block_pattern(&[0x11, 0x22]).lock().unwrap());
    }
}

#[test]
fn a_read_only_backend_changes_no_file() {
    let image = block_pattern(&[0x33, 0x44]);
    let inner = raw_io(image.clone());
    let io = move |op: DiskOp| {
        assert!(matches!(
            op,
            DiskOp::Read { .. } | DiskOp::SyncData { .. } | DiskOp::SyncAll { .. }
        ));
        inner(op)
    };
    let mut backend = BlkBackend::open(io, 1024, true);
    let mut data = vec![0xaa; 512];
    assert_eq!(backend.service(&hdr(req_type::OUT, 0), &mut data), status::IO_ERR);
    assert_eq!(backend.service(&hdr(req_type::FLUSH, 0), &mut Vec::new()), status::OK);
    assert_eq!(service_read(&mut backend, 1, 512), vec![0x44; 512]);
}

#[test]
fn a_read_sees_a_write_that_is_no_whole_number_of_sectors() {
    let mut expected = vec![1u8; 512];
    expected.extend_from_slice(&[9u8; 700]);
    expected.extend_from_slice(&[3u8; 324]);

    let image = block_pattern(&[1, 2, 3]);
    let mut raw = open_raw(&image, false);
    service_write(&mut raw, 1, &[9u8; 700]);
    assert_eq!(service_read(&mut raw, 0, 1536), expected);

    let base = block_pattern(&[1, 2, 3]);
    let overlay = mem_file(Vec::new());
    let mut cow = open_cow(&base, &overlay);
    service_write(&mut cow, 1, &[9u8; 700]);
    assert_eq!(service_read(&mut cow, 0, 1536), expected);
    let mut reopened = open_cow(&base, &overlay);
    assert_eq!(service_read(&mut reopened, 0, 1536), expected);
    assert_eq!(*base.lock().unwrap(), *block_pattern(&[1, 2, 3]).lock().unwrap());
}
