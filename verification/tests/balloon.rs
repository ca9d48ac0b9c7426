use std::sync::{Arc, Mutex};
use vm_memory::{Bytes, GuestAddress, GuestMemoryMmap};
use vmm_devices::bus::MmioDevice;
use vmm_devices::persist::Persist;
use vmm_devices::virtio::balloon::pages::{inflate, parse_pfns, MAX_PFNS_PER_REQUEST};
use vmm_devices::virtio::balloon::VirtioBalloonMmio;
use vmm_devices::virtio::regs::reg;
use vmm_devices::virtio::vqueue::{AvailRing, Descriptor, UsedElem};

const SIZE: u64 = 8 * 1024 * 1024;

type Discard = Box<dyn Fn(GuestMemoryMmap, u64, u64) -> (GuestMemoryMmap, bool) + Send + Sync>;

fn memory() -> GuestMemoryMmap {
    GuestMemoryMmap::from_ranges(&[(GuestAddress(0), SIZE as usize)]).unwrap()
}

/// A discarded range reads as zero.
fn zeroing() -> Discard {
    Box::new(|mem, gpa, len| {
        let ok = mem
            .write_slice(&vec![0u8; len as usize], GuestAddress(gpa))
            .is_ok();
        (mem, ok)
    })
}

fn balloon(mem: &GuestMemoryMmap) -> VirtioBalloonMmio<Discard> {
    VirtioBalloonMmio::new(9, mem.clone(), SIZE, zeroing(), 0).unwrap()
}

fn put(mem: &GuestMemoryMmap, bytes: &[u8], addr: u64) {
    mem.write_slice(bytes, GuestAddress(addr)).unwrap();
}

fn get(mem: &GuestMemoryMmap, addr: u64, len: usize) -> Vec<u8> {
    let mut buf = vec![0u8; len];
    mem.read_slice(&mut buf, GuestAddress(addr)).unwrap();
    buf
}

fn configure(dev: &mut VirtioBalloonMmio<Discard>, queue: u32, base: u64) {
    dev.mmio_write(reg::QUEUE_SEL, u64::from(queue), 4).unwrap();
    dev.mmio_write(reg::QUEUE_NUM, 16, 4).unwrap();
    dev.mmio_write(reg::QUEUE_DESC_LOW, base, 4).unwrap();
    dev.mmio_write(reg::QUEUE_DRIVER_LOW, base + 0x1000, 4)
        .unwrap();
    dev.mmio_write(reg::QUEUE_DEVICE_LOW, base + 0x2000, 4)
        .unwrap();
    dev.mmio_write(reg::QUEUE_READY, 1, 4).unwrap();
}

const DESC: u64 = 0x100000;
const AVAIL: u64 = DESC + 0x1000;
const USED: u64 = DESC + 0x2000;
const PFNS: u64 = DESC + 0x3000;

fn request(mem: &GuestMemoryMmap, pfns: &[u32], avail_idx: u16) {
    let mut bytes = Vec::new();
    for pfn in pfns {
        bytes.extend_from_slice(&pfn.to_le_bytes());
    }
    put(mem, &bytes, PFNS);
    let d = Descriptor {
        addr: PFNS,
        len: bytes.len() as u32,
        flags: 0,
        next: 0,
    };
    put(mem, &d.to_bytes(), DESC);
    put(
        mem,
        &AvailRing {
            flags: 0,
            idx: avail_idx,
        }
        .to_bytes(),
        AVAIL,
    );
}

#[test]
fn config_target_is_bounded_and_interrupting() {
    let mut dev = balloon(&memory());
    assert_eq!(dev.mmio_read(reg::DEVICE_ID, 4).unwrap(), 5);
    dev.mmio_write(reg::QUEUE_SEL, 2, 4).unwrap();
    assert_eq!(dev.mmio_read(reg::QUEUE_NUM_MAX, 4).unwrap(), 0);
    dev.set_target_pages(128).unwrap();
    assert_eq!(dev.mmio_read(reg::CONFIG, 4).unwrap(), 128);
    assert_eq!(dev.mmio_read(reg::INTERRUPT_STATUS, 4).unwrap(), 2);
    assert!(dev.set_target_pages(4096).is_err());
    dev.mmio_write(reg::CONFIG + 4, 64, 4).unwrap();
    assert_eq!(dev.actual_pages(), 64);
    dev.mmio_write(reg::CONFIG + 4, 4096, 4).unwrap();
    assert_eq!(dev.actual_pages(), 64);
}

#[test]
fn inflate_discards_valid_pages_and_rejects_out_of_range_pfns() {
    let memory = memory();
    put(&memory, &[0x5a; 4096], 0x4000);
    let mut dev = balloon(&memory);
    request(&memory, &[4], 1);
    put(&memory, &0u16.to_le_bytes(), AVAIL + 4);
    configure(&mut dev, 0, DESC);
    dev.mmio_write(reg::QUEUE_NOTIFY, 0, 4).unwrap();
    assert_eq!(dev.counts.inflate_pages, 1);
    let page = get(&memory, 0x4000, 4096);
    assert!(page.iter().all(|byte| *byte == 0));
    assert_eq!(UsedElem::from_bytes(&get(&memory, USED + 4, 8)).id, 0);

    // A page that guest memory does not have.
    request(&memory, &[4096], 2);
    dev.mmio_write(reg::QUEUE_NOTIFY, 0, 4).unwrap();
    assert_eq!(dev.counts.inflate_pages, 1);
    assert_eq!(dev.counts.rejected_pfns, 1);
}

#[test]
fn snapshot_preserves_queue_cursors_and_balloon_config() {
    let mut restored = balloon(&memory());
    restored.set_target_pages(64).unwrap();
    restored.actual_pages = 32;
    let state = Persist::save(&restored);
    Persist::restore(&mut restored, state);
    assert_eq!(restored.target_pages(), 64);
    assert_eq!(restored.actual_pages(), 32);
}

#[test]
fn pfn_payload_is_bounded_before_guest_memory_allocation_or_read() {
    let mem = memory();
    assert!(parse_pfns(
        &mem,
        SIZE,
        &[(u64::MAX - 3, ((MAX_PFNS_PER_REQUEST + 1) * 4) as u32)],
        &[]
    )
    .is_none());
    assert!(parse_pfns(
        &mem,
        SIZE,
        &[
            (u64::MAX - 3, (MAX_PFNS_PER_REQUEST * 4) as u32),
            (u64::MAX - 3, 4),
        ],
        &[],
    )
    .is_none());
}

#[test]
fn pfn_payload_accepts_the_bounded_linux_request_size() {
    let memory = memory();
    let address = 0x10_0000;
    let mut bytes = Vec::with_capacity(MAX_PFNS_PER_REQUEST * 4);
    for pfn in 0..MAX_PFNS_PER_REQUEST as u32 {
        bytes.extend_from_slice(&pfn.to_le_bytes());
    }
    put(&memory, &bytes, address);
    let parsed = parse_pfns(&memory, SIZE, &[(address, bytes.len() as u32)], &[]).unwrap();
    assert_eq!(parsed.len(), MAX_PFNS_PER_REQUEST);
    assert_eq!(parsed[0], 0);
    assert_eq!(parsed[MAX_PFNS_PER_REQUEST - 1], 255);
}

#[test]
fn malformed_requests_name_no_pages() {
    let mem = memory();
    put(&mem, &7u32.to_le_bytes(), 0x1000);
    assert_eq!(parse_pfns(&mem, SIZE, &[(0x1000, 4)], &[]), Some(vec![7]));
    assert_eq!(parse_pfns(&mem, SIZE, &[(0x1000, 4)], &[(0x2000, 4)]), None);
    assert_eq!(parse_pfns(&mem, SIZE, &[(0x1000, 3)], &[]), None);
    assert_eq!(parse_pfns(&mem, SIZE, &[(0x1000, 4), (0x1000, 0)], &[]), None);
    assert_eq!(parse_pfns(&mem, SIZE, &[], &[]), None);
    assert_eq!(parse_pfns(&mem, 7 * 4096, &[(0x1000, 4)], &[]), None);
    assert_eq!(
        parse_pfns(&mem, 8 * 4096, &[(0x1000, 4)], &[]),
        Some(vec![7])
    );
}

#[test]
fn pages_are_given_back_in_maximal_ranges() {
    let asked: Arc<Mutex<Vec<(u64, u64)>>> = Arc::new(Mutex::new(Vec::new()));
    let log = asked.clone();
    let discard = move |mem: GuestMemoryMmap, gpa: u64, len: u64| {
        log.lock().unwrap().push((gpa, len));
        (mem, true)
    };
    let (_mem, n) = inflate(&discard, memory(), &vec![9, 4, 5, 6, 5, 1, 8]);
    assert_eq!(n, Some(6));
    assert_eq!(
        *asked.lock().unwrap(),
        vec![
            (0x1000, 0x1000),
            (0x4000, 0x3000),
            (0x8000, 0x2000),
        ]
    );
}

#[test]
fn a_failed_discard_counts_as_a_rejection() {
    let mem = memory();
    let failing: Discard = Box::new(|mem, _gpa, _len| (mem, false));
    let mut dev = VirtioBalloonMmio::new(9, mem.clone(), SIZE, failing, 0).unwrap();
    request(&mem, &[4, 6], 1);
    put(&mem, &0u16.to_le_bytes(), AVAIL + 4);
    configure(&mut dev, 0, DESC);
    assert_eq!(dev.process_queue(0), 1);
    assert_eq!(dev.counts.inflate_pages, 0);
    assert_eq!(dev.counts.rejected_pfns, 1);
}

#[test]
fn deflate_counts_pages_and_saved_cursors_are_taken_up() {
    let mem = memory();
    let mut dev = balloon(&mem);
    request(&mem, &[4, 4, 5], 1);
    put(&mem, &0u16.to_le_bytes(), AVAIL + 4);
    configure(&mut dev, 1, DESC);
    assert_eq!(dev.process_queue(1), 1);
    assert_eq!(dev.counts.deflate_pages, 3);
    assert_eq!(dev.process_queue(2), 0);
    let state = dev.save();
    assert_eq!(state.processors[1].unwrap().last_used_idx, 1);
    let mut other = balloon(&mem);
    other.restore(state);
    assert_eq!(other.process_queue(1), 0);
    assert_eq!(other.processors[1].as_ref().unwrap().used_idx(), 1);
}

#[test]
fn a_target_beyond_memory_is_an_error() {
    let r = VirtioBalloonMmio::new(9, memory(), SIZE, zeroing(), 2049);
    assert_eq!(r.err().unwrap(), "balloon target exceeds guest memory");
    assert!(VirtioBalloonMmio::new(9, memory(), SIZE, zeroing(), 2048).is_ok());
}

#[test]
fn unoffered_features_are_not_taken() {
    let mut dev = balloon(&memory());
    dev.mmio_write(reg::GUEST_FEATURES_SEL, 0, 4).unwrap();
    dev.mmio_write(reg::GUEST_FEATURES, 0xffff_ffff, 4).unwrap();
    dev.mmio_write(reg::GUEST_FEATURES_SEL, 1, 4).unwrap();
    dev.mmio_write(reg::GUEST_FEATURES, 0xffff_ffff, 4).unwrap();
    assert_eq!(dev.regs.guest_features_low, 0);
    assert_eq!(dev.regs.guest_features_high, 1);
    assert!(!dev.has_pending_interrupt());
}
