use std::sync::atomic::{AtomicU64, Ordering};
use std::sync::{Arc, Mutex};
use vm_memory::{Bytes, GuestAddress, GuestMemoryMmap};
use vmm_devices::bus::{MmioBus, MmioDevice, MmioRange};
use vmm_devices::persist::Persist;
use vmm_devices::rate_limit::{RateLimitClock, RateLimiter};
use vmm_devices::virtio::blk_transport::status_bits;
use vmm_devices::virtio::net_transport::{
    net_features, VirtioNetMmio, QUEUE_RX, QUEUE_TX, VIRTIO_NET_HDR_LEN,
    VIRTIO_NET_HDR_NUM_BUFFERS_OFF,
};
use vmm_devices::virtio::regs::{reg, MAGIC};
use vmm_devices::virtio::vqueue::{desc_flags, AvailRing, Descriptor, UsedElem};

type Tap = Box<dyn Fn(&[u8]) -> i64 + Send + Sync>;

fn new_net(mac: [u8; 6]) -> VirtioNetMmio<Tap> {
    VirtioNetMmio::new(6, mac)
}

fn new_mem() -> GuestMemoryMmap {
    GuestMemoryMmap::from_ranges(&[(GuestAddress(0), 4 * 1024 * 1024)]).unwrap()
}

fn put(mem: &GuestMemoryMmap, bytes: &[u8], addr: u64) {
    mem.write_slice(bytes, GuestAddress(addr)).unwrap();
}

fn get(mem: &GuestMemoryMmap, addr: u64, len: usize) -> Vec<u8> {
    let mut buf = vec![0u8; len];
    mem.read_slice(&mut buf, GuestAddress(addr)).unwrap();
    buf
}

#[derive(Debug, Clone)]
struct ManualClock {
    now_ns: Arc<AtomicU64>,
}

impl ManualClock {
    fn new(now_ns: u64) -> Self {
        Self {
            now_ns: Arc::new(AtomicU64::new(now_ns)),
        }
    }

    fn advance(&self, delta_ns: u64) {
        self.now_ns.fetch_add(delta_ns, Ordering::Relaxed);
    }
}

impl RateLimitClock for ManualClock {
    fn now_ns(&self) -> u64 {
        self.now_ns.load(Ordering::Relaxed)
    }
}

fn configure_net_queue(
    dev: &mut VirtioNetMmio<Tap>,
    queue_idx: u32,
    desc: u64,
    avail: u64,
    used: u64,
) {
    dev.mmio_write(reg::QUEUE_SEL, queue_idx as u64, 4).unwrap();
    dev.mmio_write(reg::QUEUE_NUM, 16, 4).unwrap();
    dev.mmio_write(reg::QUEUE_DESC_LOW, desc as u32 as u64, 4)
        .unwrap();
    dev.mmio_write(reg::QUEUE_DESC_HIGH, desc >> 32, 4).unwrap();
    dev.mmio_write(reg::QUEUE_DRIVER_LOW, avail as u32 as u64, 4)
        .unwrap();
    dev.mmio_write(reg::QUEUE_DRIVER_HIGH, avail >> 32, 4)
        .unwrap();
    dev.mmio_write(reg::QUEUE_DEVICE_LOW, used as u32 as u64, 4)
        .unwrap();
    dev.mmio_write(reg::QUEUE_DEVICE_HIGH, used >> 32, 4)
        .unwrap();
    dev.mmio_write(reg::QUEUE_READY, 1, 4).unwrap();
}

fn net_used_idx(mem: &GuestMemoryMmap, used: u64) -> u16 {
    let b = get(mem, used + 2, 2);
    u16::from_le_bytes([b[0], b[1]])
}

fn used_elem(mem: &GuestMemoryMmap, used: u64) -> UsedElem {
    UsedElem::from_bytes(&get(mem, used + 4, 8))
}

fn put_desc(mem: &GuestMemoryMmap, table: u64, idx: u16, addr: u64, len: u32, flags: u16) {
    let d = Descriptor {
        addr,
        len,
        flags,
        next: 0,
    };
    put(mem, &d.to_bytes(), table + u64::from(idx) * 16);
}

fn two_packets(mem: &GuestMemoryMmap, desc: u64, avail: u64, used: u64, bufs: [u64; 2]) {
    for (idx, buf_addr, payload) in [(0u16, bufs[0], b"PING"), (1u16, bufs[1], b"PONG")] {
        let mut packet = vec![0u8; VIRTIO_NET_HDR_LEN];
        packet.extend_from_slice(payload);
        put(mem, &packet, buf_addr);
        put_desc(mem, desc, idx, buf_addr, packet.len() as u32, 0);
        put(mem, &idx.to_le_bytes(), avail + 4 + u64::from(idx) * 2);
    }
    put(mem, &AvailRing { flags: 0, idx: 2 }.to_bytes(), avail);
    put(mem, &[0; 4], used);
}

#[test]
fn magic_and_device_id() {
    let dev = new_net([0xAA; 6]);
    assert_eq!(dev.mmio_read(reg::MAGIC_VALUE, 4).unwrap(), MAGIC as u64);
    assert_eq!(dev.mmio_read(reg::DEVICE_ID, 4).unwrap(), 1);
}

#[test]
fn mac_exposed_in_config_space() {
    let dev = new_net([0x52, 0x54, 0x00, 0x12, 0x34, 0x56]);
    // 4-byte read of low 4 MAC bytes.
    let low = dev.mmio_read(reg::CONFIG, 4).unwrap();
    assert_eq!(low, 0x1200_5452);
    // Byte read of the 5th MAC byte.
    let b4 = dev.mmio_read(reg::CONFIG + 4, 1).unwrap();
    assert_eq!(b4 & 0xff, 0x34);
    // Byte read of the 6th MAC byte.
    let b5 = dev.mmio_read(reg::CONFIG + 5, 1).unwrap();
    assert_eq!(b5 & 0xff, 0x56);
}

#[test]
fn features_advertised_include_mac() {
    let mut dev = new_net([0; 6]);
    dev.mmio_write(reg::HOST_FEATURES_SEL, 0, 4).unwrap();
    let bits = dev.mmio_read(reg::HOST_FEATURES, 4).unwrap();
    assert_ne!(bits & net_features::MAC as u64, 0);
}

#[test]
fn two_queues_round_trip_independently() {
    let mut dev = new_net([0; 6]);
    // queue 0 (RX): size 64
    dev.mmio_write(reg::QUEUE_SEL, 0, 4).unwrap();
    dev.mmio_write(reg::QUEUE_NUM, 64, 4).unwrap();
    // queue 1 (TX): size 32
    dev.mmio_write(reg::QUEUE_SEL, 1, 4).unwrap();
    dev.mmio_write(reg::QUEUE_NUM, 32, 4).unwrap();

    dev.mmio_write(reg::QUEUE_SEL, 0, 4).unwrap();
    assert_eq!(dev.mmio_read(reg::QUEUE_NUM, 4).unwrap(), 64);
    dev.mmio_write(reg::QUEUE_SEL, 1, 4).unwrap();
    assert_eq!(dev.mmio_read(reg::QUEUE_NUM, 4).unwrap(), 32);
}

#[test]
fn status_driver_ok_sets_activated() {
    let mut dev = new_net([0; 6]);
    assert!(!dev.is_activated());
    dev.mmio_write(reg::STATUS, status_bits::DRIVER_OK as u64, 4)
        .unwrap();
    assert!(dev.is_activated());
}

#[test]
fn bus_dispatches_net_device() {
    let mut bus = MmioBus::new();
    bus.insert(
        MmioRange::new(0xd000_1000, 0x1000),
        Box::new(new_net([0; 6])),
    )
    .unwrap();
    assert_eq!(bus.read(0xd000_1000 + reg::DEVICE_ID, 4).unwrap(), 1);
}

/// Without a tap the descriptor is still consumed, so the used ring index advances and an
/// interrupt is due.
#[test]
fn tx_queue_drains_chain_even_without_tap() {
    let mem = new_mem();
    let mut dev = new_net([0; 6]);
    dev.set_guest_memory(mem.clone());

    const DESC: u64 = 0x10_0000;
    const AVAIL: u64 = 0x10_1000;
    const USED: u64 = 0x10_2000;
    const PKT: u64 = 0x10_3000;

    let payload = b"PING";
    let mut packet = [0u8; VIRTIO_NET_HDR_LEN + 4];
    packet[VIRTIO_NET_HDR_LEN..].copy_from_slice(payload);
    put(&mem, &packet, PKT);

    put_desc(&mem, DESC, 0, PKT, packet.len() as u32, 0);
    put(&mem, &AvailRing { flags: 0, idx: 1 }.to_bytes(), AVAIL);
    put(&mem, &0u16.to_le_bytes(), AVAIL + 4); // ring[0] = desc 0

    // Configure TX queue (index 1).
    configure_net_queue(&mut dev, 1, DESC, AVAIL, USED);

    // Kick.
    dev.mmio_write(reg::QUEUE_NOTIFY, 1, 4).unwrap();
    assert_eq!(dev.notify_count, 1);

    // The used ring should advance.
    assert_eq!(net_used_idx(&mem, USED), 1, "used ring idx didn't advance");
    assert_eq!(used_elem(&mem, USED).id, 0);
    assert_eq!(dev.take_irqs(), 1);
}

#[test]
fn tight_limiter_defers_tx_descriptors() {
    let mem = new_mem();
    let mut dev = new_net([0; 6]);
    let clock = ManualClock::new(0);
    dev.set_guest_memory(mem.clone());
    dev.set_rate_limiter(RateLimiter::new_with_clock(
        1,
        10_000,
        Box::new(clock.clone()),
    ));

    const DESC: u64 = 0x30_0000;
    const AVAIL: u64 = 0x30_1000;
    const USED: u64 = 0x30_2000;
    two_packets(&mem, DESC, AVAIL, USED, [0x30_3000, 0x30_4000]);
    configure_net_queue(&mut dev, QUEUE_TX as u32, DESC, AVAIL, USED);

    dev.process_tx_queue();
    assert_eq!(net_used_idx(&mem, USED), 1);

    dev.process_tx_queue();
    assert_eq!(net_used_idx(&mem, USED), 1);

    clock.advance(1_000_000_000);
    dev.process_tx_queue();
    assert_eq!(net_used_idx(&mem, USED), 2);
}

#[test]
fn persist_round_trips_tx_processor_indices() {
    let mem = new_mem();
    let mut dev = new_net([0x52, 0x54, 0x00, 0x12, 0x34, 0x56]);
    let clock = ManualClock::new(0);
    dev.set_guest_memory(mem.clone());
    dev.set_rate_limiter(RateLimiter::new_with_clock(1, 10_000, Box::new(clock)));
    dev.mmio_write(reg::GUEST_FEATURES_SEL, 0, 4).unwrap();
    dev.mmio_write(reg::GUEST_FEATURES, net_features::MAC as u64, 4)
        .unwrap();

    const DESC: u64 = 0x36_0000;
    const AVAIL: u64 = 0x36_1000;
    const USED: u64 = 0x36_2000;
    two_packets(&mem, DESC, AVAIL, USED, [0x36_3000, 0x36_4000]);
    configure_net_queue(&mut dev, QUEUE_TX as u32, DESC, AVAIL, USED);
    dev.mmio_write(reg::STATUS, status_bits::DRIVER_OK as u64, 4)
        .unwrap();

    dev.process_tx_queue();
    assert_eq!(net_used_idx(&mem, USED), 1);

    let state = dev.save();
    let tx_processor = state.tx_processor.expect("tx processor state");
    assert_eq!(tx_processor.last_avail_idx, 1);
    assert_eq!(tx_processor.last_used_idx, 1);

    let mut restored = new_net([0; 6]);
    restored.set_guest_memory(mem.clone());
    restored.restore(state);
    assert_eq!(
        restored.mmio_read(reg::STATUS, 4).unwrap(),
        status_bits::DRIVER_OK as u64
    );
    restored
        .mmio_write(reg::QUEUE_SEL, QUEUE_TX as u64, 4)
        .unwrap();
    assert_eq!(restored.mmio_read(reg::QUEUE_NUM, 4).unwrap(), 16);
    assert_eq!(restored.mmio_read(reg::QUEUE_DESC_LOW, 4).unwrap(), DESC);
    assert_eq!(restored.mmio_read(reg::QUEUE_DRIVER_LOW, 4).unwrap(), AVAIL);
    assert_eq!(restored.mmio_read(reg::QUEUE_DEVICE_LOW, 4).unwrap(), USED);
    assert_eq!(restored.save().guest_features, net_features::MAC);

    restored.process_tx_queue();
    assert_eq!(net_used_idx(&mem, USED), 2);
}

/// Inject an RX packet and confirm it lands in the writable chain plus the device wrote a
/// virtio_net_hdr in front of it.
#[test]
fn rx_inject_writes_hdr_then_packet() {
    let mem = new_mem();
    let mut dev = new_net([0; 6]);
    dev.set_guest_memory(mem.clone());

    const DESC: u64 = 0x20_0000;
    const AVAIL: u64 = 0x20_1000;
    const USED: u64 = 0x20_2000;
    const BUF: u64 = 0x20_3000;

    // One writable desc, 2048 bytes long.
    put_desc(&mem, DESC, 0, BUF, 2048, desc_flags::WRITE);
    put(&mem, &AvailRing { flags: 0, idx: 1 }.to_bytes(), AVAIL);
    put(&mem, &0u16.to_le_bytes(), AVAIL + 4);

    configure_net_queue(&mut dev, 0, DESC, AVAIL, USED);

    let packet = b"PONG-payload";
    assert!(dev.inject_rx_packet(packet));
    assert_eq!(dev.rx_packets, 1);

    // Read back the 12-byte virtio_net_hdr_v1 + packet.
    let got = get(&mem, BUF, VIRTIO_NET_HDR_LEN + packet.len());
    // Header is zeroed except num_buffers (last u16) = 1.
    let mut expected_hdr = [0u8; VIRTIO_NET_HDR_LEN];
    expected_hdr[VIRTIO_NET_HDR_NUM_BUFFERS_OFF..].copy_from_slice(&1u16.to_le_bytes());
    assert_eq!(&got[..VIRTIO_NET_HDR_LEN], &expected_hdr);
    assert_eq!(&got[VIRTIO_NET_HDR_LEN..], packet);

    // used_idx advanced; used_elem.len = hdr+pkt.
    assert_eq!(net_used_idx(&mem, USED), 1);
    assert_eq!(
        used_elem(&mem, USED).len as usize,
        VIRTIO_NET_HDR_LEN + packet.len()
    );
}

#[test]
fn tight_limiter_defers_rx_descriptor() {
    let mem = new_mem();
    let mut dev = new_net([0; 6]);
    let clock = ManualClock::new(0);
    let mut limiter: RateLimiter =
        RateLimiter::new_with_clock(1, 10_000, Box::new(clock.clone()));
    assert!(limiter.try_charge(1, 1));
    dev.set_guest_memory(mem.clone());
    dev.set_rate_limiter(limiter);

    const DESC: u64 = 0x34_0000;
    const AVAIL: u64 = 0x34_1000;
    const USED: u64 = 0x34_2000;
    const BUF: u64 = 0x34_3000;

    put_desc(&mem, DESC, 0, BUF, 2048, desc_flags::WRITE);
    put(&mem, &AvailRing { flags: 0, idx: 1 }.to_bytes(), AVAIL);
    put(&mem, &0u16.to_le_bytes(), AVAIL + 4);
    put(&mem, &[0; 4], USED);
    configure_net_queue(&mut dev, QUEUE_RX as u32, DESC, AVAIL, USED);

    let packet = b"rate-limited-rx";
    assert!(!dev.inject_rx_packet(packet));
    assert_eq!(net_used_idx(&mem, USED), 0);

    clock.advance(1_000_000_000);
    assert!(dev.inject_rx_packet(packet));
    assert_eq!(net_used_idx(&mem, USED), 1);
}

#[test]
fn net_transport_persist_round_trips_negotiated_transport_state() {
    let mut dev = new_net([0x52, 0x54, 0x00, 0x12, 0x34, 0x56]);
    dev.mmio_write(reg::HOST_FEATURES_SEL, 1, 4).unwrap();
    dev.mmio_write(reg::GUEST_FEATURES_SEL, 0, 4).unwrap();
    dev.mmio_write(reg::GUEST_FEATURES, net_features::MAC as u64, 4)
        .unwrap();

    dev.mmio_write(reg::QUEUE_SEL, 0, 4).unwrap();
    dev.mmio_write(reg::QUEUE_NUM, 64, 4).unwrap();
    dev.mmio_write(reg::QUEUE_DESC_LOW, 0x0000_1000, 4).unwrap();
    dev.mmio_write(reg::QUEUE_DESC_HIGH, 0x0000_0001, 4)
        .unwrap();
    dev.mmio_write(reg::QUEUE_DRIVER_LOW, 0x0000_2000, 4)
        .unwrap();
    dev.mmio_write(reg::QUEUE_DRIVER_HIGH, 0x0000_0002, 4)
        .unwrap();
    dev.mmio_write(reg::QUEUE_DEVICE_LOW, 0x0000_3000, 4)
        .unwrap();
    dev.mmio_write(reg::QUEUE_DEVICE_HIGH, 0x0000_0003, 4)
        .unwrap();
    dev.mmio_write(reg::QUEUE_READY, 1, 4).unwrap();

    dev.mmio_write(reg::QUEUE_SEL, 1, 4).unwrap();
    dev.mmio_write(reg::QUEUE_NUM, 32, 4).unwrap();
    dev.mmio_write(reg::QUEUE_DESC_LOW, 0x4444_5555, 4).unwrap();
    dev.mmio_write(reg::QUEUE_DESC_HIGH, 0x2222_3333, 4)
        .unwrap();
    dev.mmio_write(reg::QUEUE_DRIVER_LOW, 0x8888_9999, 4)
        .unwrap();
    dev.mmio_write(reg::QUEUE_DRIVER_HIGH, 0x6666_7777, 4)
        .unwrap();
    dev.mmio_write(reg::QUEUE_DEVICE_LOW, 0xcccc_dddd, 4)
        .unwrap();
    dev.mmio_write(reg::QUEUE_DEVICE_HIGH, 0xaaaa_bbbb, 4)
        .unwrap();
    dev.mmio_write(reg::QUEUE_READY, 1, 4).unwrap();
    dev.mmio_write(reg::GUEST_FEATURES_SEL, 1, 4).unwrap();
    dev.mmio_write(reg::STATUS, status_bits::DRIVER_OK as u64, 4)
        .unwrap();
    dev.regs.raise(1);

    let state = dev.save();
    let mut restored = new_net([0; 6]);
    restored.restore(state.clone());

    assert_eq!(restored.save(), state);
    assert_eq!(
        restored.mmio_read(reg::STATUS, 4).unwrap(),
        state.status as u64
    );
    assert_eq!(
        restored.mmio_read(reg::INTERRUPT_STATUS, 4).unwrap(),
        state.interrupt_status as u64
    );
    restored.mmio_write(reg::QUEUE_SEL, 0, 4).unwrap();
    assert_eq!(restored.mmio_read(reg::QUEUE_NUM, 4).unwrap(), 64);
    assert_eq!(restored.mmio_read(reg::QUEUE_READY, 4).unwrap(), 1);
    restored.mmio_write(reg::QUEUE_SEL, 1, 4).unwrap();
    assert_eq!(restored.mmio_read(reg::QUEUE_NUM, 4).unwrap(), 32);
    assert_eq!(restored.mmio_read(reg::QUEUE_READY, 4).unwrap(), 1);
}

#[test]
fn the_tap_gets_the_frame_without_its_header() {
    let mem = new_mem();
    let mut dev = new_net([0; 6]);
    dev.set_guest_memory(mem.clone());
    let sent: Arc<Mutex<Vec<Vec<u8>>>> = Arc::new(Mutex::new(Vec::new()));
    let sink = sent.clone();
    dev.set_tap_fd(Box::new(move |frame: &[u8]| {
        sink.lock().unwrap().push(frame.to_vec());
        frame.len() as i64
    }));

    const DESC: u64 = 0x10_0000;
    const AVAIL: u64 = 0x10_1000;
    const USED: u64 = 0x10_2000;
    two_packets(&mem, DESC, AVAIL, USED, [0x10_3000, 0x10_4000]);
    configure_net_queue(&mut dev, QUEUE_TX as u32, DESC, AVAIL, USED);

    assert_eq!(dev.process_tx_queue(), 2);
    assert_eq!(
        *sent.lock().unwrap(),
        vec![b"PING".to_vec(), b"PONG".to_vec()]
    );
    assert_eq!(dev.tx_packets, 2);
    assert_eq!(dev.tx_bytes, 8);
}

#[test]
fn a_frame_without_a_receive_buffer_is_not_delivered() {
    let mut dev = new_net([0; 6]);
    assert!(!dev.inject_rx_packet(b"nobody"));
    assert_eq!(dev.rx_packets, 0);
}

#[test]
fn a_write_that_the_host_refuses_is_not_counted() {
    let mem = new_mem();
    let mut dev = new_net([0; 6]);
    dev.set_guest_memory(mem.clone());
    let handed = Arc::new(AtomicU64::new(0));
    let count = handed.clone();
    dev.set_tap_fd(Box::new(move |frame: &[u8]| {
        count.fetch_add(1, Ordering::Relaxed);
        if frame == b"PING" {
            -1
        } else {
            3
        }
    }));

    const DESC: u64 = 0x10_0000;
    const AVAIL: u64 = 0x10_1000;
    const USED: u64 = 0x10_2000;
    two_packets(&mem, DESC, AVAIL, USED, [0x10_3000, 0x10_4000]);
    configure_net_queue(&mut dev, QUEUE_TX as u32, DESC, AVAIL, USED);

    assert_eq!(dev.process_tx_queue(), 1);
    assert_eq!(handed.load(Ordering::Relaxed), 2);
    assert_eq!(dev.tx_packets, 1);
    assert_eq!(dev.tx_bytes, 3);
    assert_eq!(net_used_idx(&mem, USED), 2);
}

#[test]
fn a_frame_that_is_too_long_or_empty_is_not_sent() {
    let mem = new_mem();
    let mut dev = new_net([0; 6]);
    dev.set_guest_memory(mem.clone());
    dev.set_tap_fd(Box::new(|frame: &[u8]| panic!("{} bytes were sent", frame.len())));

    const DESC: u64 = 0x10_0000;
    const AVAIL: u64 = 0x10_1000;
    const USED: u64 = 0x10_2000;
    put_desc(&mem, DESC, 0, 0x10_3000, 1601, 0);
    put_desc(&mem, DESC, 1, 0x10_4000, VIRTIO_NET_HDR_LEN as u32, 0);
    put(&mem, &[0, 0, 1, 0], AVAIL + 4);
    put(&mem, &AvailRing { flags: 0, idx: 2 }.to_bytes(), AVAIL);
    put(&mem, &[0; 4], USED);
    configure_net_queue(&mut dev, QUEUE_TX as u32, DESC, AVAIL, USED);

    assert_eq!(dev.process_tx_queue(), 0);
    assert_eq!(net_used_idx(&mem, USED), 2);
}

#[test]
fn a_packet_goes_to_the_first_chain_with_room_and_only_there() {
    let mem = new_mem();
    let mut dev = new_net([0; 6]);
    dev.set_guest_memory(mem.clone());

    const DESC: u64 = 0x10_0000;
    const AVAIL: u64 = 0x10_1000;
    const USED: u64 = 0x10_2000;
    put_desc(&mem, DESC, 0, 0x10_3000, 8, desc_flags::WRITE);
    put_desc(&mem, DESC, 1, 0x10_4000, 64, desc_flags::WRITE);
    put_desc(&mem, DESC, 2, 0x10_5000, 64, desc_flags::WRITE);
    put(&mem, &[0, 0, 1, 0, 2, 0], AVAIL + 4);
    put(&mem, &AvailRing { flags: 0, idx: 3 }.to_bytes(), AVAIL);
    put(&mem, &[0; 4], USED);
    configure_net_queue(&mut dev, QUEUE_RX as u32, DESC, AVAIL, USED);

    assert!(dev.inject_rx_packet(b"hello"));
    assert_eq!(net_used_idx(&mem, USED), 2);
    assert_eq!(used_elem(&mem, USED).len, 0);
    assert_eq!(used_elem(&mem, USED + 8).len, 17);
    assert_eq!(get(&mem, 0x10_4000 + 12, 5), b"hello");
    assert_eq!(get(&mem, 0x10_5000, 64), vec![0; 64]);
    assert_eq!(dev.rx_packets, 1);
    assert_eq!(dev.rx_bytes, 5);
    assert_eq!(dev.take_irqs(), 1);
}

#[test]
fn a_chain_that_is_too_small_is_consumed_with_nothing_in_it() {
    let mem = new_mem();
    let mut dev = new_net([0; 6]);
    dev.set_guest_memory(mem.clone());

    const DESC: u64 = 0x10_0000;
    const AVAIL: u64 = 0x10_1000;
    const USED: u64 = 0x10_2000;
    put_desc(&mem, DESC, 0, 0x10_3000, 8, desc_flags::WRITE);
    put(&mem, &[0, 0], AVAIL + 4);
    put(&mem, &AvailRing { flags: 0, idx: 1 }.to_bytes(), AVAIL);
    put(&mem, &[0; 4], USED);
    configure_net_queue(&mut dev, QUEUE_RX as u32, DESC, AVAIL, USED);

    assert!(dev.inject_rx_packet(b"hello"));
    assert_eq!(net_used_idx(&mem, USED), 1);
    assert_eq!(used_elem(&mem, USED).len, 0);
    assert_eq!(get(&mem, 0x10_3000, 8), vec![0; 8]);
    assert_eq!(dev.rx_packets, 0);
    assert_eq!(dev.rx_bytes, 0);
    assert_eq!(dev.mmio_read(reg::INTERRUPT_STATUS, 4).unwrap(), 0);
    assert_eq!(dev.take_irqs(), 0);

    assert!(!dev.inject_rx_packet(b"hello"));
    assert_eq!(net_used_idx(&mem, USED), 1);
    assert_eq!(dev.take_irqs(), 0);
}
