use vmm_devices::persist::Persist;
use vmm_devices::virtio::blk::{req_type, validate_req, BlkParseError, BlkReqHeader, VirtioBlk};

fn hdr(req_type: u32, sector: u64) -> BlkReqHeader {
    BlkReqHeader {
        req_type,
        reserved: 0,
        sector,
    }
}

#[test]
fn header_round_trips_bytes() {
    let h = hdr(req_type::IN, 1234);
    let mut b = [0u8; 16];
    b[0..4].copy_from_slice(&h.req_type.to_le_bytes());
    b[8..16].copy_from_slice(&h.sector.to_le_bytes());
    let parsed = BlkReqHeader::from_bytes(&b).unwrap();
    assert_eq!(parsed, h);
}

#[test]
fn header_too_short_returns_none() {
    assert!(BlkReqHeader::from_bytes(&[0; 15]).is_none());
}

#[test]
fn read_req_at_edge_validates() {
    // 100 sectors, read 1 sector at the last sector (99).
    let h = hdr(req_type::IN, 99);
    assert_eq!(validate_req(&h, 512, 100).unwrap(), 99 * 512);
}

#[test]
fn read_req_past_end_rejected() {
    let h = hdr(req_type::IN, 100);
    assert_eq!(
        validate_req(&h, 512, 100),
        Err(BlkParseError::OutOfBounds {
            sector: 100,
            n: 1,
            sectors: 100
        })
    );
}

#[test]
fn write_zeroes_treated_as_write() {
    let h = hdr(req_type::WRITE_ZEROES, 5);
    assert!(h.is_write());
    validate_req(&h, 512, 100).unwrap();
}

#[test]
fn unknown_req_type_rejected() {
    let h = hdr(999, 0);
    assert_eq!(
        validate_req(&h, 0, 100),
        Err(BlkParseError::UnknownReqType(999))
    );
}

#[test]
fn flush_and_get_id_skip_bounds_check() {
    let flush = hdr(req_type::FLUSH, 999_999);
    let id = hdr(req_type::GET_ID, 999_999);
    validate_req(&flush, 0, 0).unwrap();
    validate_req(&id, 20, 0).unwrap();
}

#[test]
fn sector_offset_overflow_rejected() {
    // sector near u64::MAX - sector*512 overflows.
    let h = hdr(req_type::IN, u64::MAX / 4);
    assert_eq!(
        validate_req(&h, 512, u64::MAX),
        Err(BlkParseError::Overflow)
    );
}

#[test]
fn blk_persist_round_trip() {
    let b = VirtioBlk::new("/dev/null".to_string(), true, 42);
    let st = b.save();
    let mut b2 = VirtioBlk::new("/x".to_string(), false, 0);
    b2.restore(st);
    assert_eq!(b2.backing, "/dev/null");
    assert!(b2.read_only);
    assert_eq!(b2.sectors, 42);
}

#[test]
fn a_read_is_no_write() {
    assert!(hdr(req_type::IN, 0).is_read());
    assert!(!hdr(req_type::IN, 0).is_write());
    assert!(!hdr(req_type::OUT, 0).is_read());
    assert!(hdr(req_type::OUT, 0).is_write());
}
