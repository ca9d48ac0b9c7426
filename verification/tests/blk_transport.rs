use std::sync::atomic::{AtomicU64, Ordering};
use std::sync::{Arc, Mutex};
use vm_memory::{Bytes, GuestAddress, GuestMemoryMmap};
use vmm_devices::bus::{MmioBus, MmioDevice, MmioRange};
use vmm_devices::dirty::SoftwareDirtyBitmap;
use vmm_devices::persist::Persist;
use vmm_devices::rate_limit::{RateLimitClock, RateLimiter};
use vmm_devices::virtio::blk::{req_type, status, BlkReqHeader};
use vmm_devices::virtio::blk_backend::{BlkBackend, DiskOp};
use vmm_devices::virtio::blk_transport::{status_bits, VirtioBlkMmio};
use vmm_devices::virtio::regs::{reg, MAGIC};
use vmm_devices::virtio::vqueue::{desc_flags, AvailRing, Descriptor, MAX_DESC_LEN};

const TEST_DESC: u64 = 0x10_0000;
const TEST_AVAIL: u64 = 0x10_1000;
const TEST_USED: u64 = 0x10_2000;
const TEST_HEADER_BASE: u64 = 0x10_3000;
const TEST_DATA_BASE: u64 = 0x10_4000;
const TEST_STATUS_BASE: u64 = 0x10_8000;
const TEST_QUEUE_SIZE: u16 = 16;

type Io = Box<dyn Fn(DiskOp) -> Option<Vec<u8>> + Send + Sync>;

#[derive(Debug, Clone)]
struct ManualClock {
    now_ns: Arc<AtomicU64>,
}

impl ManualClock {
    fn new(now_ns: u64) -> Self {
        Self {
            now_ns: Arc::new(AtomicU64::new(now_ns)),
        }
    }

    fn advance(&self, delta_ns: u64) {
        self.now_ns.fetch_add(delta_ns, Ordering::Relaxed);
    }
}

impl RateLimitClock for ManualClock {
    fn now_ns(&self) -> u64 {
        self.now_ns.load(Ordering::Relaxed)
    }
}

fn disk(image: &Arc<Mutex<Vec<u8>>>) -> Io {
    let image = image.clone();
    Box::new(move |op| {
        let mut bytes = image.lock().unwrap();
        match op {
            DiskOp::Read { offset, len, .. } => {
                let start = offset as usize;
                bytes.get(start..start + len).map(|part| part.to_vec())
            }
            DiskOp::Write { offset, data, .. } => {
                let start = offset as usize;
                bytes[start..start + data.len()].copy_from_slice(&data);
                Some(Vec::new())
            }
            _ => Some(Vec::new()),
        }
    })
}

fn backend_on(image: &Arc<Mutex<Vec<u8>>>, read_only: bool) -> BlkBackend<Io> {
    let len = image.lock().unwrap().len() as u64;
    BlkBackend::open(disk(image), len, read_only)
}

fn new_test_image() -> Arc<Mutex<Vec<u8>>> {
    Arc::new(Mutex::new(vec![0u8; 4096]))
}

fn stub() -> VirtioBlkMmio<Io> {
    VirtioBlkMmio::new_stub(5, 2)
}

fn new_test_mem() -> GuestMemoryMmap {
    GuestMemoryMmap::from_ranges(&[(GuestAddress(0), 4 * 1024 * 1024)]).unwrap()
}

fn put(mem: &GuestMemoryMmap, bytes: &[u8], addr: u64) {
    mem.write_slice(bytes, GuestAddress(addr)).unwrap();
}

fn get(mem: &GuestMemoryMmap, addr: u64, len: usize) -> Vec<u8> {
    let mut buf = vec![0u8; len];
    mem.read_slice(&mut buf, GuestAddress(addr)).unwrap();
    buf
}

fn header_bytes(req_type: u32, sector: u64) -> Vec<u8> {
    let mut b = req_type.to_le_bytes().to_vec();
    b.extend_from_slice(&0u32.to_le_bytes());
    b.extend_from_slice(&sector.to_le_bytes());
    b
}

fn configure_test_blk_queue(dev: &mut VirtioBlkMmio<Io>, mem: &GuestMemoryMmap) {
    dev.set_guest_memory(mem.clone());
    dev.mmio_write(reg::QUEUE_SEL, 0, 4).unwrap();
    dev.mmio_write(reg::QUEUE_NUM, TEST_QUEUE_SIZE as u64, 4)
        .unwrap();
    dev.mmio_write(reg::QUEUE_DESC_LOW, TEST_DESC, 4).unwrap();
    dev.mmio_write(reg::QUEUE_DESC_HIGH, 0, 4).unwrap();
    dev.mmio_write(reg::QUEUE_DRIVER_LOW, TEST_AVAIL, 4)
        .unwrap();
    dev.mmio_write(reg::QUEUE_DRIVER_HIGH, 0, 4).unwrap();
    dev.mmio_write(reg::QUEUE_DEVICE_LOW, TEST_USED, 4).unwrap();
    dev.mmio_write(reg::QUEUE_DEVICE_HIGH, 0, 4).unwrap();
    dev.mmio_write(reg::QUEUE_READY, 1, 4).unwrap();
}

fn put_desc(mem: &GuestMemoryMmap, index: u16, addr: u64, len: u32, flags: u16, next: u16) {
    let d = Descriptor {
        addr,
        len,
        flags,
        next,
    };
    put(mem, &d.to_bytes(), TEST_DESC + u64::from(index) * 16);
}

fn setup_blk_out_requests(mem: &GuestMemoryMmap, count: u16) {
    put(mem, &[0; 4], TEST_USED);
    put(
        mem,
        &AvailRing {
            flags: 0,
            idx: count,
        }
        .to_bytes(),
        TEST_AVAIL,
    );

    for i in 0..count {
        let head = i * 3;
        let header_addr = TEST_HEADER_BASE + u64::from(i) * 0x100;
        let data_addr = TEST_DATA_BASE + u64::from(i) * 0x1000;
        let status_addr = TEST_STATUS_BASE + u64::from(i) * 0x100;
        let data = vec![i as u8; 512];

        put(mem, &header_bytes(req_type::OUT, u64::from(i)), header_addr);
        put(mem, &data, data_addr);
        put(
            mem,
            &head.to_le_bytes(),
            TEST_AVAIL + 4 + u64::from(i) * 2,
        );
        put_desc(
            mem,
            head,
            header_addr,
            BlkReqHeader::SIZE as u32,
            desc_flags::NEXT,
            head + 1,
        );
        put_desc(
            mem,
            head + 1,
            data_addr,
            data.len() as u32,
            desc_flags::NEXT,
            head + 2,
        );
        put_desc(mem, head + 2, status_addr, 1, desc_flags::WRITE, 0);
        put(mem, &[0xff], status_addr);
    }
}

/// One request of three descriptors: header, data, status.
fn setup_request(
    mem: &GuestMemoryMmap,
    req: u32,
    sector: u64,
    data_addr: u64,
    data_len: u32,
    device_writes: bool,
) {
    put(mem, &[0; 4], TEST_USED);
    put(mem, &AvailRing { flags: 0, idx: 1 }.to_bytes(), TEST_AVAIL);
    put(mem, &0u16.to_le_bytes(), TEST_AVAIL + 4);
    put(mem, &header_bytes(req, sector), TEST_HEADER_BASE);
    put_desc(mem, 0, TEST_HEADER_BASE, 16, desc_flags::NEXT, 1);
    let flags = desc_flags::NEXT
        | if device_writes {
            desc_flags::WRITE
        } else {
            0
        };
    put_desc(mem, 1, data_addr, data_len, flags, 2);
    put_desc(mem, 2, TEST_STATUS_BASE, 1, desc_flags::WRITE, 0);
    put(mem, &[0xff], TEST_STATUS_BASE);
}

fn used_idx(mem: &GuestMemoryMmap) -> u16 {
    let b = get(mem, TEST_USED + 2, 2);
    u16::from_le_bytes([b[0], b[1]])
}

fn status_byte(mem: &GuestMemoryMmap) -> u8 {
    get(mem, TEST_STATUS_BASE, 1)[0]
}

#[test]
fn blk_transport_magic_reads_back_as_virt() {
    let dev = stub();
    assert_eq!(dev.mmio_read(reg::MAGIC_VALUE, 4).unwrap(), MAGIC as u64);
}

#[test]
fn status_round_trips() {
    let mut dev = stub();
    dev.mmio_write(reg::STATUS, status_bits::DRIVER_OK as u64, 4)
        .unwrap();
    assert_eq!(
        dev.mmio_read(reg::STATUS, 4).unwrap(),
        status_bits::DRIVER_OK as u64
    );
}

#[test]
fn queue_config_round_trips() {
    let mut dev = stub();
    // Select queue 0.
    dev.mmio_write(reg::QUEUE_SEL, 0, 4).unwrap();
    // Set queue size.
    dev.mmio_write(reg::QUEUE_NUM, 64, 4).unwrap();
    assert_eq!(dev.mmio_read(reg::QUEUE_NUM, 4).unwrap(), 64);
    // Set desc table addr.
    dev.mmio_write(reg::QUEUE_DESC_LOW, 0x100000, 4).unwrap();
    dev.mmio_write(reg::QUEUE_DESC_HIGH, 0, 4).unwrap();
    assert_eq!(dev.mmio_read(reg::QUEUE_DESC_LOW, 4).unwrap(), 0x100000);
    // Set queue ready.
    dev.mmio_write(reg::QUEUE_READY, 1, 4).unwrap();
}

#[test]
fn bus_dispatches_to_device() {
    let mut bus = MmioBus::new();
    bus.insert(MmioRange::new(0xd000_0000, 0x1000), Box::new(stub()))
        .unwrap();
    assert_eq!(
        bus.read(0xd000_0000 + reg::MAGIC_VALUE, 4).unwrap(),
        MAGIC as u64
    );
    assert_eq!(bus.read(0xd000_0000 + reg::DEVICE_ID, 4).unwrap(), 2);
}

#[test]
fn queue_notify_without_mem_doesnt_panic() {
    let mut dev = stub();
    // Should not panic even without guest memory set.
    dev.mmio_write(reg::QUEUE_NOTIFY, 0, 4).unwrap();
}

#[test]
fn no_limiter_processes_all_blk_requests() {
    let image = new_test_image();
    let mem = new_test_mem();
    let mut dev = VirtioBlkMmio::new(5, backend_on(&image, false));
    configure_test_blk_queue(&mut dev, &mem);
    setup_blk_out_requests(&mem, 2);

    dev.process_queue(0);

    assert_eq!(used_idx(&mem), 2);
    assert_eq!(image.lock().unwrap()[512..1024], [1u8; 512]);
}

#[test]
fn tight_limiter_defers_blk_requests_without_consuming_descriptors() {
    let image = new_test_image();
    let mem = new_test_mem();
    let mut dev = VirtioBlkMmio::new(5, backend_on(&image, false));
    let clock = ManualClock::new(0);
    dev.set_rate_limiter(RateLimiter::new_with_clock(1, 4096, Box::new(clock.clone())));
    configure_test_blk_queue(&mut dev, &mem);
    setup_blk_out_requests(&mem, 2);

    dev.process_queue(0);
    assert_eq!(used_idx(&mem), 1);

    dev.process_queue(0);
    assert_eq!(used_idx(&mem), 1);

    clock.advance(1_000_000_000);
    dev.process_queue(0);
    assert_eq!(used_idx(&mem), 2);
}

#[test]
fn persist_round_trips_queue_processor_indices() {
    let image = new_test_image();
    let mem = new_test_mem();
    let mut dev = VirtioBlkMmio::new(5, backend_on(&image, false));
    let clock = ManualClock::new(0);
    dev.set_rate_limiter(RateLimiter::new_with_clock(1, 4096, Box::new(clock)));
    dev.mmio_write(reg::HOST_FEATURES_SEL, 1, 4).unwrap();
    dev.mmio_write(reg::GUEST_FEATURES_SEL, 0, 4).unwrap();
    dev.mmio_write(reg::GUEST_FEATURES, 0x2000_0200, 4).unwrap();
    configure_test_blk_queue(&mut dev, &mem);
    dev.mmio_write(reg::STATUS, status_bits::DRIVER_OK as u64, 4)
        .unwrap();
    setup_blk_out_requests(&mem, 2);

    dev.process_queue(0);
    assert_eq!(used_idx(&mem), 1);

    let state = dev.save();
    let processor = state.processor.expect("processor state");
    assert_eq!(processor.last_avail_idx, 1);
    assert_eq!(processor.last_used_idx, 1);

    let mut restored = VirtioBlkMmio::new(5, backend_on(&image, false));
    restored.set_guest_memory(mem.clone());
    restored.restore(state);
    assert_eq!(
        restored.mmio_read(reg::STATUS, 4).unwrap(),
        status_bits::DRIVER_OK as u64
    );
    restored.mmio_write(reg::QUEUE_SEL, 0, 4).unwrap();
    assert_eq!(restored.mmio_read(reg::QUEUE_NUM, 4).unwrap(), 16);
    assert_eq!(
        restored.mmio_read(reg::QUEUE_DESC_LOW, 4).unwrap(),
        TEST_DESC
    );
    assert_eq!(
        restored.mmio_read(reg::QUEUE_DRIVER_LOW, 4).unwrap(),
        TEST_AVAIL
    );
    assert_eq!(
        restored.mmio_read(reg::QUEUE_DEVICE_LOW, 4).unwrap(),
        TEST_USED
    );

    restored.process_queue(0);
    assert_eq!(used_idx(&mem), 2);
}

#[test]
fn blk_transport_persist_round_trips_negotiated_transport_state() {
    let mut dev = stub();
    dev.mmio_write(reg::HOST_FEATURES_SEL, 1, 4).unwrap();
    dev.mmio_write(reg::GUEST_FEATURES_SEL, 0, 4).unwrap();
    dev.mmio_write(reg::GUEST_FEATURES, 0x2000_0200, 4).unwrap();
    dev.mmio_write(reg::GUEST_FEATURES_SEL, 1, 4).unwrap();
    dev.mmio_write(reg::GUEST_FEATURES, 1, 4).unwrap();
    dev.mmio_write(reg::QUEUE_SEL, 0, 4).unwrap();
    dev.mmio_write(reg::QUEUE_NUM, 64, 4).unwrap();
    dev.mmio_write(reg::QUEUE_DESC_LOW, 0x5566_7788, 4).unwrap();
    dev.mmio_write(reg::QUEUE_DESC_HIGH, 0x1122_3344, 4)
        .unwrap();
    dev.mmio_write(reg::QUEUE_DRIVER_LOW, 0xddee_ff00, 4)
        .unwrap();
    dev.mmio_write(reg::QUEUE_DRIVER_HIGH, 0x99aa_bbcc, 4)
        .unwrap();
    dev.mmio_write(reg::QUEUE_DEVICE_LOW, 0x89ab_cdef, 4)
        .unwrap();
    dev.mmio_write(reg::QUEUE_DEVICE_HIGH, 0x0123_4567, 4)
        .unwrap();
    dev.mmio_write(reg::QUEUE_READY, 1, 4).unwrap();
    dev.mmio_write(reg::STATUS, status_bits::DRIVER_OK as u64, 4)
        .unwrap();
    dev.regs.raise(1);

    let state = dev.save();
    let mut restored = stub();
    restored.restore(state.clone());

    assert_eq!(restored.save(), state);
    assert_eq!(
        restored.mmio_read(reg::STATUS, 4).unwrap(),
        state.regs.status as u64
    );
    assert_eq!(
        restored.mmio_read(reg::INTERRUPT_STATUS, 4).unwrap(),
        state.regs.interrupt_status as u64
    );
}

#[test]
fn a_read_fills_the_buffer_marks_pages_and_interrupts() {
    let image = new_test_image();
    image.lock().unwrap()[1024..1536].copy_from_slice(&[0x42; 512]);
    let mem = new_test_mem();
    let mut dev = VirtioBlkMmio::new(5, backend_on(&image, false));
    configure_test_blk_queue(&mut dev, &mem);
    dev.set_guest_dirty_tracker(SoftwareDirtyBitmap::new());
    setup_request(&mem, req_type::IN, 2, TEST_DATA_BASE, 512, true);

    dev.mmio_write(reg::QUEUE_NOTIFY, 0, 4).unwrap();

    assert_eq!(used_idx(&mem), 1);
    assert_eq!(status_byte(&mem), status::OK);
    assert_eq!(get(&mem, TEST_DATA_BASE, 512), vec![0x42; 512]);
    assert_eq!(dev.mmio_read(reg::INTERRUPT_STATUS, 4).unwrap(), 1);
    assert_eq!(dev.take_irqs(), 1);
    assert_eq!(dev.take_irqs(), 0);
    dev.mmio_write(reg::INTERRUPT_ACK, 1, 4).unwrap();
    assert_eq!(dev.mmio_read(reg::INTERRUPT_STATUS, 4).unwrap(), 0);
    let pages = dev.host_dirty.as_mut().unwrap().drain();
    assert!(pages.contains(TEST_DATA_BASE));
    assert!(pages.contains(TEST_STATUS_BASE));
    assert!(pages.contains(TEST_USED));
    assert!(!pages.contains(TEST_DESC));
}

#[test]
fn a_write_reaches_the_disk() {
    let image = new_test_image();
    let mem = new_test_mem();
    let mut dev = VirtioBlkMmio::new(5, backend_on(&image, false));
    configure_test_blk_queue(&mut dev, &mem);
    put(&mem, &[0x77; 512], TEST_DATA_BASE);
    setup_request(&mem, req_type::OUT, 1, TEST_DATA_BASE, 512, false);

    dev.mmio_write(reg::QUEUE_NOTIFY, 0, 4).unwrap();

    assert_eq!(used_idx(&mem), 1);
    assert_eq!(status_byte(&mem), status::OK);
    assert_eq!(image.lock().unwrap()[512..1024], [0x77; 512]);
}

#[test]
fn a_flush_is_answered() {
    let image = new_test_image();
    let mem = new_test_mem();
    let mut dev = VirtioBlkMmio::new(5, backend_on(&image, false));
    configure_test_blk_queue(&mut dev, &mem);
    setup_request(&mem, req_type::FLUSH, 0, 0, 0, false);
    put_desc(&mem, 0, TEST_HEADER_BASE, 16, desc_flags::NEXT, 2);

    dev.mmio_write(reg::QUEUE_NOTIFY, 0, 4).unwrap();

    assert_eq!(status_byte(&mem), status::OK);
}

#[test]
fn a_read_only_disk_refuses_a_write() {
    let image = new_test_image();
    let mem = new_test_mem();
    let mut dev = VirtioBlkMmio::new(5, backend_on(&image, true));
    configure_test_blk_queue(&mut dev, &mem);
    put(&mem, &[0x77; 512], TEST_DATA_BASE);
    setup_request(&mem, req_type::OUT, 0, TEST_DATA_BASE, 512, false);

    dev.mmio_write(reg::QUEUE_NOTIFY, 0, 4).unwrap();

    assert_eq!(status_byte(&mem), status::IO_ERR);
    assert_eq!(image.lock().unwrap()[0..512], [0; 512]);
}

#[test]
fn a_read_behind_the_end_is_an_error() {
    let image = new_test_image();
    let mem = new_test_mem();
    let mut dev = VirtioBlkMmio::new(5, backend_on(&image, false));
    configure_test_blk_queue(&mut dev, &mem);
    setup_request(&mem, req_type::IN, 9999, TEST_DATA_BASE, 512, true);

    dev.mmio_write(reg::QUEUE_NOTIFY, 0, 4).unwrap();

    assert_eq!(used_idx(&mem), 1);
    assert_eq!(status_byte(&mem), status::IO_ERR);
}

#[test]
fn an_unmapped_buffer_drops_the_request() {
    let image = new_test_image();
    let mem = new_test_mem();
    let mut dev = VirtioBlkMmio::new(5, backend_on(&image, false));
    configure_test_blk_queue(&mut dev, &mem);
    setup_request(&mem, req_type::IN, 0, 0xDEAD_0000, 512, true);

    dev.mmio_write(reg::QUEUE_NOTIFY, 0, 4).unwrap();

    assert_eq!(used_idx(&mem), 0);
    assert_eq!(status_byte(&mem), 0xff);
}

#[test]
fn an_oversized_buffer_drops_the_request() {
    let image = new_test_image();
    let mem = new_test_mem();
    let mut dev = VirtioBlkMmio::new(5, backend_on(&image, false));
    configure_test_blk_queue(&mut dev, &mem);
    setup_request(
        &mem,
        req_type::IN,
        0,
        TEST_DATA_BASE,
        MAX_DESC_LEN + 1,
        true,
    );

    dev.mmio_write(reg::QUEUE_NOTIFY, 0, 4).unwrap();

    assert_eq!(used_idx(&mem), 0);
    assert_eq!(status_byte(&mem), 0xff);
}

#[test]
fn capacity_is_exposed_in_config_space_and_reset_clears_the_queue() {
    let image = new_test_image();
    let mem = new_test_mem();
    let mut dev = VirtioBlkMmio::new(5, backend_on(&image, false));
    configure_test_blk_queue(&mut dev, &mem);
    assert_eq!(dev.mmio_read(reg::CONFIG, 4).unwrap(), 8);
    assert_eq!(dev.mmio_read(reg::QUEUE_READY, 4).unwrap(), 1);
    dev.mmio_write(reg::STATUS, 0, 4).unwrap();
    assert_eq!(dev.mmio_read(reg::QUEUE_READY, 4).unwrap(), 0);
    assert_eq!(dev.mmio_read(reg::QUEUE_NUM, 4).unwrap(), 0);
    assert!(!dev.is_activated());
}

#[test]
fn after_a_reset_every_register_reads_like_that_of_a_new_device() {
    let image = new_test_image();
    let mem = new_test_mem();
    let mut dev = VirtioBlkMmio::new(5, backend_on(&image, false));
    configure_test_blk_queue(&mut dev, &mem);
    dev.mmio_write(reg::HOST_FEATURES_SEL, 1, 4).unwrap();
    dev.mmio_write(reg::STATUS, 0, 4).unwrap();
    let fresh = VirtioBlkMmio::new(5, backend_on(&image, false));
    for off in (0..0x200u64).step_by(4) {
        assert_eq!(dev.mmio_read(off, 4).unwrap(), fresh.mmio_read(off, 4).unwrap());
    }
}
