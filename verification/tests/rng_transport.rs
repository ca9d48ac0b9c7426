use vm_memory::{Bytes, GuestAddress, GuestMemoryMmap};
use vmm_devices::bus::{MmioBus, MmioDevice, MmioRange};
use vmm_devices::dirty::SoftwareDirtyBitmap;
use vmm_devices::persist::Persist;
use vmm_devices::virtio::blk_transport::status_bits;
use vmm_devices::virtio::regs::{reg, MAGIC};
use vmm_devices::virtio::rng::{VirtioRng, DEVICE_ID_RNG};
use vmm_devices::virtio::rng_transport::VirtioRngMmio;
use vmm_devices::virtio::vqueue::{desc_flags, AvailRing, Descriptor, UsedElem};

fn new_dev() -> VirtioRngMmio {
    VirtioRngMmio::new(7, VirtioRng::new())
}

fn new_mem() -> GuestMemoryMmap {
    GuestMemoryMmap::from_ranges(&[(GuestAddress(0), 4 * 1024 * 1024)]).unwrap()
}

fn put(mem: &GuestMemoryMmap, bytes: &[u8], addr: u64) {
    mem.write_slice(bytes, GuestAddress(addr)).unwrap();
}

fn get(mem: &GuestMemoryMmap, addr: u64, len: usize) -> Vec<u8> {
    let mut buf = vec![0u8; len];
    mem.read_slice(&mut buf, GuestAddress(addr)).unwrap();
    buf
}

fn used_idx(mem: &GuestMemoryMmap, used: u64) -> u16 {
    let b = get(mem, used + 2, 2);
    u16::from_le_bytes([b[0], b[1]])
}

fn used_elem(mem: &GuestMemoryMmap, used: u64) -> UsedElem {
    UsedElem::from_bytes(&get(mem, used + 4, 8))
}

fn one_chain(mem: &GuestMemoryMmap, desc: u64, avail: u64, addr: u64, len: u32, flags: u16) {
    let d = Descriptor {
        addr,
        len,
        flags,
        next: 0,
    };
    put(mem, &d.to_bytes(), desc);
    put(mem, &AvailRing { flags: 0, idx: 1 }.to_bytes(), avail);
    put(mem, &0u16.to_le_bytes(), avail + 4);
}

fn configure_queue(dev: &mut VirtioRngMmio, desc: u64, avail: u64, used: u64, size: u16) {
    dev.mmio_write(reg::QUEUE_SEL, 0, 4).unwrap();
    dev.mmio_write(reg::QUEUE_NUM, size as u64, 4).unwrap();
    dev.mmio_write(reg::QUEUE_DESC_LOW, desc as u32 as u64, 4)
        .unwrap();
    dev.mmio_write(reg::QUEUE_DESC_HIGH, desc >> 32, 4).unwrap();
    dev.mmio_write(reg::QUEUE_DRIVER_LOW, avail as u32 as u64, 4)
        .unwrap();
    dev.mmio_write(reg::QUEUE_DRIVER_HIGH, avail >> 32, 4)
        .unwrap();
    dev.mmio_write(reg::QUEUE_DEVICE_LOW, used as u32 as u64, 4)
        .unwrap();
    dev.mmio_write(reg::QUEUE_DEVICE_HIGH, used >> 32, 4)
        .unwrap();
    dev.mmio_write(reg::QUEUE_READY, 1, 4).unwrap();
}

#[test]
fn mmio_register_negotiation_and_reset() {
    let mut dev = new_dev();

    assert_eq!(dev.mmio_read(reg::MAGIC_VALUE, 4).unwrap(), MAGIC as u64);
    assert_eq!(dev.mmio_read(reg::VERSION, 4).unwrap(), 2);
    assert_eq!(
        dev.mmio_read(reg::DEVICE_ID, 4).unwrap(),
        DEVICE_ID_RNG as u64
    );
    assert_eq!(dev.mmio_read(reg::QUEUE_NUM_MAX, 4).unwrap(), 256);

    dev.mmio_write(reg::HOST_FEATURES_SEL, 0, 4).unwrap();
    assert_eq!(dev.mmio_read(reg::HOST_FEATURES, 4).unwrap(), 0);
    dev.mmio_write(reg::HOST_FEATURES_SEL, 1, 4).unwrap();
    assert_eq!(dev.mmio_read(reg::HOST_FEATURES, 4).unwrap(), 1);

    dev.mmio_write(reg::GUEST_FEATURES_SEL, 0, 4).unwrap();
    dev.mmio_write(reg::GUEST_FEATURES, 0x55aa, 4).unwrap();
    dev.mmio_write(reg::GUEST_FEATURES_SEL, 1, 4).unwrap();
    dev.mmio_write(reg::GUEST_FEATURES, 1, 4).unwrap();

    dev.mmio_write(reg::STATUS, status_bits::ACKNOWLEDGE as u64, 4)
        .unwrap();
    dev.mmio_write(
        reg::STATUS,
        (status_bits::ACKNOWLEDGE | status_bits::DRIVER) as u64,
        4,
    )
    .unwrap();
    dev.mmio_write(
        reg::STATUS,
        (status_bits::ACKNOWLEDGE | status_bits::DRIVER | status_bits::FEATURES_OK) as u64,
        4,
    )
    .unwrap();
    assert_eq!(
        dev.mmio_read(reg::STATUS, 4).unwrap(),
        (status_bits::ACKNOWLEDGE | status_bits::DRIVER | status_bits::FEATURES_OK) as u64
    );

    configure_queue(&mut dev, 0x1000, 0x2000, 0x3000, 64);
    assert_eq!(dev.mmio_read(reg::QUEUE_READY, 4).unwrap(), 1);
    assert_eq!(dev.mmio_read(reg::QUEUE_NUM, 4).unwrap(), 64);

    dev.regs.raise(1);
    assert_eq!(dev.mmio_read(reg::INTERRUPT_STATUS, 4).unwrap(), 1);
    dev.mmio_write(reg::INTERRUPT_ACK, 1, 4).unwrap();
    assert_eq!(dev.mmio_read(reg::INTERRUPT_STATUS, 4).unwrap(), 0);
    dev.regs.raise(1);

    dev.mmio_write(reg::STATUS, 0, 4).unwrap();
    assert_eq!(dev.mmio_read(reg::STATUS, 4).unwrap(), 0);
    assert!(!dev.is_activated());
    assert_eq!(dev.mmio_read(reg::INTERRUPT_STATUS, 4).unwrap(), 0);
    assert_eq!(dev.mmio_read(reg::QUEUE_READY, 4).unwrap(), 0);
    assert_eq!(dev.mmio_read(reg::QUEUE_NUM, 4).unwrap(), 0);
    dev.mmio_write(reg::HOST_FEATURES_SEL, 1, 4).unwrap();
    assert_eq!(dev.mmio_read(reg::HOST_FEATURES, 4).unwrap(), 1);
}

#[test]
fn bus_dispatches_rng_device() {
    let mut bus = MmioBus::new();
    bus.insert(MmioRange::new(0xd000_2000, 0x1000), Box::new(new_dev()))
        .unwrap();
    assert_eq!(
        bus.read(0xd000_2000 + reg::DEVICE_ID, 4).unwrap(),
        DEVICE_ID_RNG as u64
    );
}

#[test]
fn processing_fills_writable_descriptor_and_updates_used_ring() {
    let mem = new_mem();
    let mut dev = new_dev();
    dev.set_guest_memory(mem.clone());

    const DESC: u64 = 0x10_0000;
    const AVAIL: u64 = 0x10_1000;
    const USED: u64 = 0x10_2000;
    const BUF: u64 = 0x10_3000;
    const BUF_LEN: usize = 64;

    one_chain(&mem, DESC, AVAIL, BUF, BUF_LEN as u32, desc_flags::WRITE);

    configure_queue(&mut dev, DESC, AVAIL, USED, 16);
    dev.mmio_write(reg::QUEUE_NOTIFY, 0, 4).unwrap();

    assert_eq!(used_idx(&mem, USED), 1);
    let used = used_elem(&mem, USED);
    assert_eq!(used.id, 0);
    assert_eq!(used.len, BUF_LEN as u32);
    assert_eq!(dev.mmio_read(reg::INTERRUPT_STATUS, 4).unwrap(), 1);

    let got = get(&mem, BUF, BUF_LEN);
    assert!(got.iter().any(|&b| b != 0));
}

#[test]
fn guest_probe_sequence_negotiates_sets_queue_and_notifies() {
    let mem = new_mem();
    let mut dev = new_dev();
    dev.set_guest_memory(mem.clone());

    const DESC: u64 = 0x18_0000;
    const AVAIL: u64 = 0x18_1000;
    const USED: u64 = 0x18_2000;
    const BUF: u64 = 0x18_3000;
    const BUF_LEN: usize = 32;

    one_chain(&mem, DESC, AVAIL, BUF, BUF_LEN as u32, desc_flags::WRITE);

    dev.mmio_write(reg::STATUS, status_bits::ACKNOWLEDGE as u64, 4)
        .unwrap();
    dev.mmio_write(
        reg::STATUS,
        (status_bits::ACKNOWLEDGE | status_bits::DRIVER) as u64,
        4,
    )
    .unwrap();

    dev.mmio_write(reg::HOST_FEATURES_SEL, 0, 4).unwrap();
    assert_eq!(dev.mmio_read(reg::HOST_FEATURES, 4).unwrap(), 0);
    dev.mmio_write(reg::GUEST_FEATURES_SEL, 0, 4).unwrap();
    dev.mmio_write(reg::GUEST_FEATURES, 0, 4).unwrap();
    dev.mmio_write(reg::HOST_FEATURES_SEL, 1, 4).unwrap();
    assert_eq!(dev.mmio_read(reg::HOST_FEATURES, 4).unwrap(), 1);
    dev.mmio_write(reg::GUEST_FEATURES_SEL, 1, 4).unwrap();
    dev.mmio_write(reg::GUEST_FEATURES, 1, 4).unwrap();

    dev.mmio_write(
        reg::STATUS,
        (status_bits::ACKNOWLEDGE | status_bits::DRIVER | status_bits::FEATURES_OK) as u64,
        4,
    )
    .unwrap();
    assert_ne!(
        dev.mmio_read(reg::STATUS, 4).unwrap() & status_bits::FEATURES_OK as u64,
        0
    );

    configure_queue(&mut dev, DESC, AVAIL, USED, 16);
    assert_eq!(dev.mmio_read(reg::QUEUE_READY, 4).unwrap(), 1);

    dev.mmio_write(
        reg::STATUS,
        (status_bits::ACKNOWLEDGE
            | status_bits::DRIVER
            | status_bits::FEATURES_OK
            | status_bits::DRIVER_OK) as u64,
        4,
    )
    .unwrap();
    assert!(dev.is_activated());

    dev.mmio_write(reg::QUEUE_NOTIFY, 0, 4).unwrap();

    assert_eq!(dev.notify_count, 1);
    assert_eq!(dev.mmio_read(reg::INTERRUPT_STATUS, 4).unwrap(), 1);
    assert_eq!(used_idx(&mem, USED), 1);
    let used = used_elem(&mem, USED);
    assert_eq!(used.id, 0);
    assert_eq!(used.len, BUF_LEN as u32);
}

#[test]
fn rng_transport_persist_round_trips_negotiated_transport_state() {
    let mut dev = new_dev();
    dev.mmio_write(reg::HOST_FEATURES_SEL, 1, 4).unwrap();
    dev.mmio_write(reg::GUEST_FEATURES_SEL, 0, 4).unwrap();
    dev.mmio_write(reg::GUEST_FEATURES, 0x1234_5678, 4).unwrap();
    dev.mmio_write(reg::GUEST_FEATURES_SEL, 1, 4).unwrap();
    dev.mmio_write(reg::GUEST_FEATURES, 1, 4).unwrap();
    dev.mmio_write(reg::QUEUE_SEL, 0, 4).unwrap();
    dev.mmio_write(reg::QUEUE_NUM, 128, 4).unwrap();
    dev.mmio_write(reg::QUEUE_DESC_LOW, 0x5566_7788, 4).unwrap();
    dev.mmio_write(reg::QUEUE_DESC_HIGH, 0x1122_3344, 4)
        .unwrap();
    dev.mmio_write(reg::QUEUE_DRIVER_LOW, 0xddee_ff00, 4)
        .unwrap();
    dev.mmio_write(reg::QUEUE_DRIVER_HIGH, 0x99aa_bbcc, 4)
        .unwrap();
    dev.mmio_write(reg::QUEUE_DEVICE_LOW, 0x89ab_cdef, 4)
        .unwrap();
    dev.mmio_write(reg::QUEUE_DEVICE_HIGH, 0x0123_4567, 4)
        .unwrap();
    dev.mmio_write(reg::QUEUE_READY, 1, 4).unwrap();
    dev.mmio_write(reg::STATUS, status_bits::DRIVER_OK as u64, 4)
        .unwrap();
    dev.regs.raise(1);

    let state = dev.save();
    let mut restored = new_dev();
    restored.restore(state.clone());

    assert_eq!(restored.save(), state);
    assert_eq!(
        restored.mmio_read(reg::STATUS, 4).unwrap(),
        state.regs.status as u64
    );
    assert_eq!(
        restored.mmio_read(reg::INTERRUPT_STATUS, 4).unwrap(),
        state.regs.interrupt_status as u64
    );
    restored.mmio_write(reg::QUEUE_SEL, 0, 4).unwrap();
    assert_eq!(restored.mmio_read(reg::QUEUE_NUM, 4).unwrap(), 128);
    assert_eq!(restored.mmio_read(reg::QUEUE_READY, 4).unwrap(), 1);
}

#[test]
fn out_of_bounds_descriptor_is_rejected_without_panic() {
    let mem = new_mem();
    let mut dev = new_dev();
    dev.set_guest_memory(mem.clone());

    const DESC: u64 = 0x20_0000;
    const AVAIL: u64 = 0x20_1000;
    const USED: u64 = 0x20_2000;

    one_chain(&mem, DESC, AVAIL, 0xf000_0000, 512, desc_flags::WRITE);

    configure_queue(&mut dev, DESC, AVAIL, USED, 16);
    dev.mmio_write(reg::QUEUE_NOTIFY, 0, 4).unwrap();

    assert_eq!(used_idx(&mem, USED), 0);
}

#[test]
fn readable_descriptor_is_consumed_without_entropy_write() {
    let mem = new_mem();
    let mut dev = new_dev();
    dev.set_guest_memory(mem.clone());

    const DESC: u64 = 0x28_0000;
    const AVAIL: u64 = 0x28_1000;
    const USED: u64 = 0x28_2000;
    const BUF: u64 = 0x28_3000;
    const BUF_LEN: usize = 16;

    let original = [0xa5u8; BUF_LEN];
    put(&mem, &original, BUF);
    one_chain(&mem, DESC, AVAIL, BUF, BUF_LEN as u32, 0);

    configure_queue(&mut dev, DESC, AVAIL, USED, 16);
    dev.mmio_write(reg::QUEUE_NOTIFY, 0, 4).unwrap();

    assert_eq!(get(&mem, BUF, BUF_LEN), original);

    assert_eq!(used_idx(&mem, USED), 1);
    assert_eq!(used_elem(&mem, USED).len, 0);
}

#[test]
fn entropy_pages_are_marked_and_other_queues_are_ignored() {
    let mem = new_mem();
    let mut dev = new_dev();
    dev.set_guest_memory(mem.clone());
    dev.set_guest_dirty_tracker(SoftwareDirtyBitmap::new());
    one_chain(&mem, 0x10_0000, 0x10_1000, 0x10_3000, 64, desc_flags::WRITE);
    configure_queue(&mut dev, 0x10_0000, 0x10_1000, 0x10_2000, 16);
    assert_eq!(dev.process_queue(1), 0);
    assert_eq!(dev.process_queue(0), 1);
    assert_eq!(dev.rng.bytes_served, 64);
    let pages = dev.host_dirty.as_mut().unwrap().drain();
    assert!(pages.contains(0x10_3000));
    assert!(pages.contains(0x10_2000));
    assert!(!pages.contains(0x10_0000));
}

#[test]
fn the_device_counts_what_it_stores_over_several_buffers() {
    let mem = new_mem();
    let mut dev = new_dev();
    dev.set_guest_memory(mem.clone());

    const DESC: u64 = 0x30_0000;
    const AVAIL: u64 = 0x30_1000;
    const USED: u64 = 0x30_2000;
    const BUF: u64 = 0x30_3000;

    one_chain(
        &mem,
        DESC,
        AVAIL,
        BUF,
        24,
        desc_flags::WRITE | desc_flags::NEXT,
    );
    let first = Descriptor {
        addr: BUF,
        len: 24,
        flags: desc_flags::WRITE | desc_flags::NEXT,
        next: 1,
    };
    let second = Descriptor {
        addr: BUF + 0x100,
        len: 40,
        flags: desc_flags::WRITE,
        next: 0,
    };
    put(&mem, &first.to_bytes(), DESC);
    put(&mem, &second.to_bytes(), DESC + 16);

    configure_queue(&mut dev, DESC, AVAIL, USED, 16);
    dev.mmio_write(reg::QUEUE_NOTIFY, 0, 4).unwrap();

    assert_eq!(used_elem(&mem, USED).len, 64);
    assert_eq!(dev.rng.bytes_served, 64);
    assert!(get(&mem, BUF, 24).iter().any(|&b| b != 0));
    assert!(get(&mem, BUF + 0x100, 40).iter().any(|&b| b != 0));
    assert_eq!(get(&mem, BUF + 24, 8), [0u8; 8]);
}
