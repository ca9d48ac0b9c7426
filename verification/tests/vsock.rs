use std::collections::VecDeque;
use std::sync::atomic::{AtomicUsize, Ordering};
use std::sync::{Arc, Mutex};
use vm_memory::{Bytes, GuestAddress, GuestMemoryMmap};
use vmm_devices::bus::MmioDevice;
use vmm_devices::persist::Persist;
use vmm_devices::virtio::blk_transport::status_bits;
use vmm_devices::virtio::regs::{reg, MAGIC};
use vmm_devices::virtio::vqueue::MAX_QUEUE_SIZE;
use vmm_devices::virtio::vqueue::{desc_flags, AvailRing, Descriptor, UsedElem};
use vmm_devices::virtio::vsock::connections::DEFAULT_BUF_ALLOC;
use vmm_devices::virtio::vsock::{
    op, packet_type, shutdown_flags, ConnectionKey, HostReadError, HostVsockListener,
    HostVsockStream, VirtioVsockMmio, VsockConnectError, VsockConnectionState, VsockPacket,
    VsockPacketHeader, DEVICE_ID_VSOCK, MAX_CONNECTIONS, MAX_PENDING_RX, QUEUE_EVENT, QUEUE_RX,
    QUEUE_TX, VSOCK_HEADER_LEN, VSOCK_HOST_CID,
};

const GUEST_CID: u64 = 42;
const SERVICE_PORT: u32 = 1024;
const GUEST_PORT: u32 = 49152;
const QSIZE: u16 = 16;
const RX_DESC: u64 = 0x10_0000;
const RX_AVAIL: u64 = 0x10_1000;
const RX_USED: u64 = 0x10_2000;
const RX_BUF: u64 = 0x10_3000;
const TX_DESC: u64 = 0x20_0000;
const TX_AVAIL: u64 = 0x20_1000;
const TX_USED: u64 = 0x20_2000;
const TX_BUF: u64 = 0x20_3000;

#[derive(Default)]
struct FakeStreamState {
    inbound: VecDeque<u8>,
    outbound: Vec<u8>,
    broken: bool,
    closed: bool,
}

#[derive(Clone, Default)]
struct FakeStream {
    state: Arc<Mutex<FakeStreamState>>,
}

impl HostVsockStream for FakeStream {
    fn read_chunk(&mut self, max: usize) -> Result<Vec<u8>, HostReadError> {
        let mut state = self.state.lock().unwrap();
        if state.closed {
            return Ok(Vec::new());
        }
        if state.inbound.is_empty() {
            return Err(HostReadError::WouldBlock);
        }
        let mut out = Vec::new();
        while out.len() < max {
            let Some(byte) = state.inbound.pop_front() else {
                break;
            };
            out.push(byte);
        }
        Ok(out)
    }

    fn write_all(&mut self, data: &[u8]) -> bool {
        let mut state = self.state.lock().unwrap();
        if state.broken {
            return false;
        }
        state.outbound.extend_from_slice(data);
        true
    }
}

#[derive(Clone, Default)]
struct FakeListener {
    state: Arc<Mutex<FakeStreamState>>,
    connects: Arc<AtomicUsize>,
    refusing: bool,
}

impl HostVsockListener for FakeListener {
    type Stream = FakeStream;

    fn connect(&self, _port: u32) -> Option<FakeStream> {
        if self.refusing {
            return None;
        }
        self.connects.fetch_add(1, Ordering::Relaxed);
        Some(FakeStream {
            state: self.state.clone(),
        })
    }
}

type Device = VirtioVsockMmio<FakeListener>;

fn new_dev() -> Device {
    VirtioVsockMmio::new(7, GUEST_CID)
}

fn new_mem() -> GuestMemoryMmap {
    GuestMemoryMmap::from_ranges(&[(GuestAddress(0), 4 * 1024 * 1024)]).unwrap()
}

fn put(mem: &GuestMemoryMmap, bytes: &[u8], addr: u64) {
    mem.write_slice(bytes, GuestAddress(addr)).unwrap();
}

fn get(mem: &GuestMemoryMmap, addr: u64, len: usize) -> Vec<u8> {
    let mut buf = vec![0u8; len];
    mem.read_slice(&mut buf, GuestAddress(addr)).unwrap();
    buf
}

fn get_u16(mem: &GuestMemoryMmap, addr: u64) -> u16 {
    let b = get(mem, addr, 2);
    u16::from_le_bytes([b[0], b[1]])
}

fn config_queue(dev: &mut Device, idx: usize, desc: u64, avail: u64, used: u64) {
    dev.mmio_write(reg::QUEUE_SEL, idx as u64, 4).unwrap();
    dev.mmio_write(reg::QUEUE_NUM, QSIZE as u64, 4).unwrap();
    dev.mmio_write(reg::QUEUE_DESC_LOW, desc as u32 as u64, 4)
        .unwrap();
    dev.mmio_write(reg::QUEUE_DESC_HIGH, desc >> 32, 4).unwrap();
    dev.mmio_write(reg::QUEUE_DRIVER_LOW, avail as u32 as u64, 4)
        .unwrap();
    dev.mmio_write(reg::QUEUE_DRIVER_HIGH, avail >> 32, 4)
        .unwrap();
    dev.mmio_write(reg::QUEUE_DEVICE_LOW, used as u32 as u64, 4)
        .unwrap();
    dev.mmio_write(reg::QUEUE_DEVICE_HIGH, used >> 32, 4)
        .unwrap();
    dev.mmio_write(reg::QUEUE_READY, 1, 4).unwrap();
}

fn setup_queues(dev: &mut Device, mem: &GuestMemoryMmap, rx_count: u16) -> Vec<u64> {
    dev.set_guest_memory(mem.clone());
    config_queue(dev, QUEUE_RX, RX_DESC, RX_AVAIL, RX_USED);
    config_queue(dev, QUEUE_TX, TX_DESC, TX_AVAIL, TX_USED);
    config_queue(dev, QUEUE_EVENT, 0x30_0000, 0x30_1000, 0x30_2000);

    let mut rx_bufs = Vec::new();
    for i in 0..rx_count {
        let buf = RX_BUF + i as u64 * 0x1000;
        rx_bufs.push(buf);
        let d = Descriptor {
            addr: buf,
            len: 0x1000,
            flags: desc_flags::WRITE,
            next: 0,
        };
        put(mem, &d.to_bytes(), RX_DESC + i as u64 * 16);
        put(mem, &i.to_le_bytes(), RX_AVAIL + 4 + i as u64 * 2);
    }
    let ring = AvailRing {
        flags: 0,
        idx: rx_count,
    };
    put(mem, &ring.to_bytes(), RX_AVAIL);
    rx_bufs
}

fn guest_packet(src_port: u32, op: u16, data: &[u8]) -> VsockPacket {
    VsockPacket::new(
        VsockPacketHeader {
            src_cid: GUEST_CID,
            dst_cid: VSOCK_HOST_CID,
            src_port,
            dst_port: SERVICE_PORT,
            len: data.len() as u32,
            type_: packet_type::STREAM,
            op,
            flags: 0,
            buf_alloc: DEFAULT_BUF_ALLOC,
            fwd_cnt: 0,
        },
        data.to_vec(),
    )
}

fn submit_tx(
    dev: &mut Device,
    mem: &GuestMemoryMmap,
    head_idx: u16,
    avail_idx: u16,
    packet: &VsockPacket,
) {
    let bytes = packet.to_bytes();
    let pkt_addr = TX_BUF + head_idx as u64 * 0x1000;
    put(mem, &bytes, pkt_addr);
    let d = Descriptor {
        addr: pkt_addr,
        len: bytes.len() as u32,
        flags: 0,
        next: 0,
    };
    put(mem, &d.to_bytes(), TX_DESC + head_idx as u64 * 16);
    put(
        mem,
        &head_idx.to_le_bytes(),
        TX_AVAIL + 4 + (avail_idx % QSIZE) as u64 * 2,
    );
    let ring = AvailRing {
        flags: 0,
        idx: avail_idx + 1,
    };
    put(mem, &ring.to_bytes(), TX_AVAIL);
    dev.mmio_write(reg::QUEUE_NOTIFY, QUEUE_TX as u64, 4)
        .unwrap();
}

fn read_rx_packet(mem: &GuestMemoryMmap, addr: u64) -> VsockPacket {
    let header_bytes = get(mem, addr, VSOCK_HEADER_LEN);
    let header = VsockPacketHeader::from_bytes(&header_bytes).unwrap();
    let data = get(mem, addr + VSOCK_HEADER_LEN as u64, header.len as usize);
    VsockPacket { header, data }
}

#[test]
fn a_failed_device_does_no_work_until_it_is_reset() {
    let mut dev = new_dev();
    dev.fail_device();

    dev.set_guest_memory(new_mem());
    assert_ne!(dev.current_status() & status_bits::FAILED, 0);
    assert!(dev.process_tx_queue().is_err());
    assert!(dev.process_rx_queue().is_err());
    assert!(dev.pump_host_streams().is_err());
    assert!(dev.try_save().is_err());
    assert!(dev
        .mmio_write(reg::QUEUE_NOTIFY, QUEUE_TX as u64, 4)
        .is_err());

    dev.mmio_write(reg::STATUS, 0, 4).unwrap();
    assert_eq!(dev.current_status(), 0);
    assert!(dev.try_save().is_ok());
}

#[test]
fn packet_header_encode_decode_round_trip() {
    let header = VsockPacketHeader {
        src_cid: 3,
        dst_cid: VSOCK_HOST_CID,
        src_port: 1234,
        dst_port: 4321,
        len: 99,
        type_: packet_type::STREAM,
        op: op::RW,
        flags: shutdown_flags::RCV | shutdown_flags::SEND,
        buf_alloc: 8192,
        fwd_cnt: 7,
    };
    let bytes = header.to_bytes();
    assert_eq!(bytes.len(), VSOCK_HEADER_LEN);
    assert_eq!(VsockPacketHeader::from_bytes(&bytes), Some(header));
}

#[test]
fn mmio_negotiation_queue_ready_and_reset() {
    let mut dev = new_dev();
    assert_eq!(dev.mmio_read(reg::MAGIC_VALUE, 4).unwrap(), MAGIC as u64);
    assert_eq!(
        dev.mmio_read(reg::DEVICE_ID, 4).unwrap(),
        DEVICE_ID_VSOCK as u64
    );
    assert_eq!(dev.mmio_read(reg::CONFIG, 4).unwrap(), GUEST_CID);

    dev.mmio_write(reg::STATUS, status_bits::ACKNOWLEDGE as u64, 4)
        .unwrap();
    dev.mmio_write(
        reg::STATUS,
        (status_bits::ACKNOWLEDGE | status_bits::DRIVER) as u64,
        4,
    )
    .unwrap();
    dev.mmio_write(reg::HOST_FEATURES_SEL, 1, 4).unwrap();
    assert_eq!(dev.mmio_read(reg::HOST_FEATURES, 4).unwrap(), 1);
    dev.mmio_write(reg::GUEST_FEATURES_SEL, 1, 4).unwrap();
    dev.mmio_write(reg::GUEST_FEATURES, 1, 4).unwrap();
    dev.mmio_write(reg::STATUS, status_bits::FEATURES_OK as u64, 4)
        .unwrap();

    let queue_sizes = [64u64, 128, 256];
    for (idx, size) in queue_sizes.iter().copied().enumerate() {
        dev.mmio_write(reg::QUEUE_SEL, idx as u64, 4).unwrap();
        assert_eq!(
            dev.mmio_read(reg::QUEUE_NUM_MAX, 4).unwrap(),
            MAX_QUEUE_SIZE as u64
        );
        dev.mmio_write(reg::QUEUE_NUM, size, 4).unwrap();
        dev.mmio_write(reg::QUEUE_DESC_LOW, 0x1000 + idx as u64, 4)
            .unwrap();
        dev.mmio_write(reg::QUEUE_DRIVER_LOW, 0x2000 + idx as u64, 4)
            .unwrap();
        dev.mmio_write(reg::QUEUE_DEVICE_LOW, 0x3000 + idx as u64, 4)
            .unwrap();
        dev.mmio_write(reg::QUEUE_READY, 1, 4).unwrap();
        assert_eq!(dev.mmio_read(reg::QUEUE_NUM, 4).unwrap(), size);
        assert_eq!(dev.mmio_read(reg::QUEUE_READY, 4).unwrap(), 1);
    }

    dev.mmio_write(reg::STATUS, status_bits::DRIVER_OK as u64, 4)
        .unwrap();
    assert!(dev.is_activated());
    dev.mmio_write(reg::STATUS, 0, 4).unwrap();
    assert_eq!(dev.mmio_read(reg::STATUS, 4).unwrap(), 0);
    assert!(!dev.is_activated());
    dev.mmio_write(reg::QUEUE_SEL, 0, 4).unwrap();
    assert_eq!(dev.mmio_read(reg::QUEUE_READY, 4).unwrap(), 0);
    assert_eq!(dev.mmio_read(reg::QUEUE_NUM, 4).unwrap(), 0);
}

#[test]
fn persist_round_trips_transport_state() {
    let mut dev = new_dev();
    dev.mmio_write(reg::HOST_FEATURES_SEL, 1, 4).unwrap();
    dev.mmio_write(reg::GUEST_FEATURES_SEL, 0, 4).unwrap();
    dev.mmio_write(reg::GUEST_FEATURES, 0x1122_3344, 4).unwrap();
    dev.mmio_write(reg::GUEST_FEATURES_SEL, 1, 4).unwrap();
    dev.mmio_write(reg::GUEST_FEATURES, 1, 4).unwrap();
    let queue_sizes = [16u64, 32, 64];
    for (idx, size) in queue_sizes.iter().copied().enumerate() {
        dev.mmio_write(reg::QUEUE_SEL, idx as u64, 4).unwrap();
        dev.mmio_write(reg::QUEUE_NUM, size, 4).unwrap();
        dev.mmio_write(reg::QUEUE_DESC_LOW, 0x1111_0000 + idx as u64, 4)
            .unwrap();
        dev.mmio_write(reg::QUEUE_DESC_HIGH, 0x1 + idx as u64, 4)
            .unwrap();
        dev.mmio_write(reg::QUEUE_DRIVER_LOW, 0x2222_0000 + idx as u64, 4)
            .unwrap();
        dev.mmio_write(reg::QUEUE_DRIVER_HIGH, 0x2 + idx as u64, 4)
            .unwrap();
        dev.mmio_write(reg::QUEUE_DEVICE_LOW, 0x3333_0000 + idx as u64, 4)
            .unwrap();
        dev.mmio_write(reg::QUEUE_DEVICE_HIGH, 0x3 + idx as u64, 4)
            .unwrap();
        dev.mmio_write(reg::QUEUE_READY, 1, 4).unwrap();
    }
    dev.mmio_write(reg::STATUS, status_bits::DRIVER_OK as u64, 4)
        .unwrap();
    dev.trigger_interrupt();

    let state = dev.save();
    let mut restored = new_dev();
    restored.restore(state.clone());

    assert_eq!(restored.save(), state);
    assert_eq!(
        restored.mmio_read(reg::STATUS, 4).unwrap(),
        state.regs.status as u64
    );
    assert_eq!(
        restored.mmio_read(reg::INTERRUPT_STATUS, 4).unwrap(),
        state.regs.interrupt_status as u64
    );
    for (idx, size) in queue_sizes.iter().copied().enumerate() {
        restored.mmio_write(reg::QUEUE_SEL, idx as u64, 4).unwrap();
        assert_eq!(restored.mmio_read(reg::QUEUE_READY, 4).unwrap(), 1);
        assert_eq!(restored.mmio_read(reg::QUEUE_NUM, 4).unwrap(), size);
    }
}

#[test]
fn stream_handshake_rw_shutdown_and_rst() {
    let mem = new_mem();
    let mut dev = new_dev();
    let rx_bufs = setup_queues(&mut dev, &mem, 6);
    let listener = FakeListener::default();
    let state = listener.state.clone();
    state
        .lock()
        .unwrap()
        .inbound
        .extend(b"pong".iter().copied());
    dev.set_host_listener(listener.clone());

    submit_tx(
        &mut dev,
        &mem,
        0,
        0,
        &guest_packet(GUEST_PORT, op::REQUEST, &[]),
    );
    assert_eq!(listener.connects.load(Ordering::Relaxed), 1);
    let response = read_rx_packet(&mem, rx_bufs[0]);
    assert_eq!(response.header.op, op::RESPONSE);
    assert_eq!(response.header.src_cid, VSOCK_HOST_CID);
    assert_eq!(response.header.dst_cid, GUEST_CID);
    assert_eq!(response.header.src_port, SERVICE_PORT);
    assert_eq!(response.header.dst_port, GUEST_PORT);

    let mut credit = guest_packet(GUEST_PORT, op::CREDIT_UPDATE, &[]);
    credit.header.buf_alloc = 1234;
    credit.header.fwd_cnt = 7;
    submit_tx(&mut dev, &mem, 1, 1, &credit);
    let key = ConnectionKey {
        guest_cid: GUEST_CID,
        guest_port: GUEST_PORT,
        host_port: SERVICE_PORT,
    };
    {
        let at = dev.bridge.find(&key).unwrap();
        let conn = &dev.bridge.connections[at];
        assert_eq!(conn.peer_buf_alloc, 1234);
        assert_eq!(conn.peer_fwd_cnt, 7);
    }

    submit_tx(
        &mut dev,
        &mem,
        2,
        2,
        &guest_packet(GUEST_PORT, op::RW, b"ping"),
    );
    assert_eq!(state.lock().unwrap().outbound, b"ping");

    assert_eq!(dev.pump_host_streams().unwrap(), 1);
    let rw = read_rx_packet(&mem, rx_bufs[1]);
    assert_eq!(rw.header.op, op::RW);
    assert_eq!(rw.data, b"pong");

    let mut shutdown = guest_packet(GUEST_PORT, op::SHUTDOWN, &[]);
    shutdown.header.flags = shutdown_flags::RCV | shutdown_flags::SEND;
    submit_tx(&mut dev, &mem, 3, 3, &shutdown);
    let shutdown_reply = read_rx_packet(&mem, rx_bufs[2]);
    assert_eq!(shutdown_reply.header.op, op::SHUTDOWN);
    assert_eq!(shutdown_reply.header.flags, shutdown.header.flags);
    assert!(dev.bridge.connections.is_empty());

    submit_tx(
        &mut dev,
        &mem,
        4,
        4,
        &guest_packet(GUEST_PORT + 1, op::REQUEST, &[]),
    );
    assert_eq!(listener.connects.load(Ordering::Relaxed), 2);
    let second_response = read_rx_packet(&mem, rx_bufs[3]);
    assert_eq!(second_response.header.op, op::RESPONSE);
    submit_tx(
        &mut dev,
        &mem,
        5,
        5,
        &guest_packet(GUEST_PORT + 1, op::RST, &[]),
    );
    assert!(dev.bridge.connections.is_empty());

    assert_eq!(get_u16(&mem, TX_USED + 2), 6);
    assert_eq!(get_u16(&mem, RX_USED + 2), 4);
    let used = UsedElem::from_bytes(&get(&mem, RX_USED + 4, 8));
    assert_eq!(used.id, 0);
}

#[test]
fn restored_connection_state_queues_rst_on_next_rx_descriptor() {
    let mem = new_mem();
    let mut dev = new_dev();
    let rx_bufs = setup_queues(&mut dev, &mem, 4);
    dev.set_host_listener(FakeListener::default());

    submit_tx(
        &mut dev,
        &mem,
        0,
        0,
        &guest_packet(GUEST_PORT, op::REQUEST, &[]),
    );
    assert_eq!(read_rx_packet(&mem, rx_bufs[0]).header.op, op::RESPONSE);

    let state = dev.save();
    assert_eq!(state.connections.len(), 1);
    assert_eq!(
        state.connections[0],
        VsockConnectionState {
            guest_cid: GUEST_CID,
            guest_port: GUEST_PORT,
            host_port: SERVICE_PORT,
            fwd_cnt: 0,
        }
    );
    assert_eq!(state.positions[QUEUE_RX].last_avail_idx, 1);
    assert_eq!(state.positions[QUEUE_RX].last_used_idx, 1);

    let mut restored = new_dev();
    restored.set_guest_memory(mem.clone());
    restored.restore_transport_state(&state);
    assert_eq!(
        restored
            .reset_restored_connections(&state.connections)
            .unwrap(),
        1
    );

    let rst = read_rx_packet(&mem, rx_bufs[1]);
    assert_eq!(rst.header.op, op::RST);
    assert_eq!(rst.header.src_cid, VSOCK_HOST_CID);
    assert_eq!(rst.header.dst_cid, GUEST_CID);
    assert_eq!(rst.header.src_port, SERVICE_PORT);
    assert_eq!(rst.header.dst_port, GUEST_PORT);
    assert_eq!(get_u16(&mem, RX_USED + 2), 2);
}

#[test]
fn host_initiated_stream_queues_request_and_waits_for_response() {
    let mem = new_mem();
    let mut dev = new_dev();
    let rx_bufs = setup_queues(&mut dev, &mem, 3);

    // The far end of the stream.
    let host: Arc<Mutex<FakeStreamState>> = Arc::default();
    dev.connect_guest_stream(
        1025,
        FakeStream {
            state: host.clone(),
        },
    )
    .unwrap();
    let request = read_rx_packet(&mem, rx_bufs[0]);
    assert_eq!(request.header.op, op::REQUEST);
    assert_eq!(request.header.src_cid, VSOCK_HOST_CID);
    assert_eq!(request.header.dst_cid, GUEST_CID);
    assert_eq!(request.header.dst_port, 1025);

    host.lock().unwrap().inbound.extend(b"start".iter());
    assert_eq!(dev.pump_host_streams().unwrap(), 0);

    let response = VsockPacket::new(
        VsockPacketHeader {
            src_cid: GUEST_CID,
            dst_cid: VSOCK_HOST_CID,
            src_port: 1025,
            dst_port: request.header.src_port,
            len: 0,
            type_: packet_type::STREAM,
            op: op::RESPONSE,
            flags: 0,
            buf_alloc: DEFAULT_BUF_ALLOC,
            fwd_cnt: 0,
        },
        Vec::new(),
    );
    submit_tx(&mut dev, &mem, 0, 0, &response);

    assert_eq!(dev.pump_host_streams().unwrap(), 1);
    let rw = read_rx_packet(&mem, rx_bufs[1]);
    assert_eq!(rw.header.op, op::RW);
    assert_eq!(rw.header.src_port, request.header.src_port);
    assert_eq!(rw.header.dst_port, 1025);
    assert_eq!(rw.data, b"start");

    let reply = VsockPacket::new(
        VsockPacketHeader {
            src_cid: GUEST_CID,
            dst_cid: VSOCK_HOST_CID,
            src_port: 1025,
            dst_port: request.header.src_port,
            len: 2,
            type_: packet_type::STREAM,
            op: op::RW,
            flags: 0,
            buf_alloc: DEFAULT_BUF_ALLOC,
            fwd_cnt: 0,
        },
        b"ok".to_vec(),
    );
    submit_tx(&mut dev, &mem, 1, 1, &reply);
    assert_eq!(host.lock().unwrap().outbound, b"ok");
}

#[test]
fn guest_requests_are_rejected_at_connection_cap() {
    let mut dev = new_dev();
    let listener = FakeListener::default();
    dev.set_host_listener(listener.clone());

    for offset in 0..MAX_CONNECTIONS {
        let request = guest_packet(GUEST_PORT + offset as u32, op::REQUEST, &[]);
        dev.bridge.handle_request(request.header);
    }

    assert_eq!(dev.bridge.connections.len(), MAX_CONNECTIONS);
    assert_eq!(listener.connects.load(Ordering::Relaxed), MAX_CONNECTIONS);

    let denied = guest_packet(GUEST_PORT + MAX_CONNECTIONS as u32, op::REQUEST, &[]);
    dev.bridge.handle_request(denied.header);

    assert_eq!(dev.bridge.connections.len(), MAX_CONNECTIONS);
    assert_eq!(listener.connects.load(Ordering::Relaxed), MAX_CONNECTIONS);
    assert_eq!(dev.bridge.pending.back().unwrap().header.op, op::RST);

    // The host cannot start one either.
    assert_eq!(
        dev.connect_guest_stream(1025, FakeStream::default()),
        Err(VsockConnectError::CapReached)
    );
}

#[test]
fn pending_rx_is_bounded_against_oom() {
    // A guest that never posts RX descriptors cannot grow the queue without bound.
    let mut dev = new_dev();
    for _ in 0..(MAX_PENDING_RX + 100) {
        dev.bridge
            .enqueue_rx(guest_packet(GUEST_PORT, op::RST, &[]));
    }
    assert_eq!(dev.bridge.pending.len(), MAX_PENDING_RX);
}

#[test]
fn headers_are_little_endian_in_field_order() {
    let header = VsockPacketHeader {
        src_cid: 0x0102_0304_0506_0708,
        dst_cid: 2,
        src_port: 0x1112_1314,
        dst_port: 3,
        len: 4,
        type_: 1,
        op: 5,
        flags: 6,
        buf_alloc: 7,
        fwd_cnt: 8,
    };
    let b = header.to_bytes();
    assert_eq!(b[..8], [8, 7, 6, 5, 4, 3, 2, 1]);
    assert_eq!(b[16..20], [0x14, 0x13, 0x12, 0x11]);
    assert_eq!(b[24..28], [4, 0, 0, 0]);
    assert_eq!(b[28..32], [1, 0, 5, 0]);
    assert_eq!(b[40..], [8, 0, 0, 0]);
    assert_eq!(VsockPacketHeader::from_bytes(&b[..43]), None);
}

#[test]
fn packets_survive_their_encoding() {
    let packet = guest_packet(9, op::RW, b"payload");
    let bytes = packet.to_bytes();
    assert_eq!(bytes.len(), VSOCK_HEADER_LEN + 7);
    assert_eq!(VsockPacket::from_bytes(&bytes), Some(packet));
    // A packet whose data is cut short is none.
    assert_eq!(VsockPacket::from_bytes(&bytes[..bytes.len() - 1]), None);
}

#[test]
fn a_refused_connection_is_answered_with_a_reset() {
    let mut dev = new_dev();
    dev.bridge
        .handle_request(guest_packet(GUEST_PORT, op::REQUEST, &[]).header);
    assert_eq!(dev.bridge.pending.back().unwrap().header.op, op::RST);
    dev.set_host_listener(FakeListener {
        refusing: true,
        ..FakeListener::default()
    });
    dev.bridge
        .handle_request(guest_packet(GUEST_PORT, op::REQUEST, &[]).header);
    assert_eq!(dev.bridge.pending.len(), 2);
    assert!(dev.bridge.connections.is_empty());
}

#[test]
fn credit_is_reported_on_request() {
    let mut dev = new_dev();
    dev.set_host_listener(FakeListener::default());
    dev.bridge
        .handle_tx_packet(guest_packet(GUEST_PORT, op::REQUEST, &[]));
    dev.bridge
        .handle_tx_packet(guest_packet(GUEST_PORT, op::RW, b"twelve bytes"));
    dev.bridge
        .handle_tx_packet(guest_packet(GUEST_PORT, op::CREDIT_REQUEST, &[]));
    let credit = dev.bridge.pending.back().unwrap();
    assert_eq!(credit.header.op, op::CREDIT_UPDATE);
    assert_eq!(credit.header.fwd_cnt, 12);
    assert_eq!(credit.header.buf_alloc, DEFAULT_BUF_ALLOC);
    assert_eq!(dev.active_connection_states()[0].fwd_cnt, 12);
}

#[test]
fn a_broken_host_stream_resets_the_connection() {
    let mut dev = new_dev();
    let listener = FakeListener::default();
    dev.set_host_listener(listener.clone());
    dev.bridge
        .handle_tx_packet(guest_packet(GUEST_PORT, op::REQUEST, &[]));
    listener.state.lock().unwrap().broken = true;
    dev.bridge
        .handle_tx_packet(guest_packet(GUEST_PORT, op::RW, b"x"));
    assert_eq!(dev.bridge.pending.back().unwrap().header.op, op::RST);
    assert!(dev.bridge.connections.is_empty());
}

#[test]
fn a_closed_host_stream_shuts_the_connection_down() {
    let mut dev = new_dev();
    let listener = FakeListener::default();
    dev.set_host_listener(listener.clone());
    dev.bridge
        .handle_tx_packet(guest_packet(GUEST_PORT, op::REQUEST, &[]));
    listener.state.lock().unwrap().closed = true;
    assert_eq!(dev.bridge.pump(), 1);
    let last = dev.bridge.pending.back().unwrap();
    assert_eq!(last.header.op, op::SHUTDOWN);
    assert_eq!(last.header.flags, shutdown_flags::RCV);
    assert!(dev.bridge.connections.is_empty());
}

#[test]
fn host_ports_are_taken_in_order_and_skip_those_in_use() {
    let mut dev = new_dev();
    assert_eq!(dev.connect_guest_stream(5, FakeStream::default()), Ok(49152));
    assert_eq!(dev.connect_guest_stream(5, FakeStream::default()), Ok(49153));
    dev.next_host_port = 49152;
    assert_eq!(dev.connect_guest_stream(5, FakeStream::default()), Ok(49154));
    dev.fail_device();
    assert_eq!(
        dev.connect_guest_stream(5, FakeStream::default()),
        Err(VsockConnectError::NeedsReset)
    );
}

#[test]
fn a_failed_device_can_be_reset() {
    let mut dev = new_dev();
    dev.fail_device();
    assert!(dev.is_failed());
    assert!(dev.ensure_operational().is_err());
    dev.mmio_write(reg::STATUS, 0, 4).unwrap();
    assert!(!dev.is_failed());
    assert!(dev.ensure_operational().is_ok());
}

#[test]
fn packets_reach_the_guest_in_the_order_they_came() {
    let mem = new_mem();
    let mut dev = new_dev();
    let rx_bufs = setup_queues(&mut dev, &mem, 3);
    put(&mem, &AvailRing { flags: 0, idx: 1 }.to_bytes(), RX_AVAIL);

    for i in 0..3u16 {
        let packet = guest_packet(500 + i as u32, op::REQUEST, &[]);
        submit_tx(&mut dev, &mem, i, i, &packet);
    }
    assert_eq!(dev.counts.rx_packets, 1);
    assert_eq!(dev.bridge.pending.len(), 2);

    put(&mem, &AvailRing { flags: 0, idx: 3 }.to_bytes(), RX_AVAIL);
    assert_eq!(dev.process_rx_queue().unwrap(), 2);
    assert_eq!(dev.counts.rx_packets, 3);
    assert_eq!(dev.bridge.pending.len(), 0);
    for (i, buf) in rx_bufs.iter().enumerate() {
        let packet = read_rx_packet(&mem, *buf);
        assert_eq!(packet.header.op, op::RST);
        assert_eq!(packet.header.dst_port, 500 + i as u32);
    }
}

#[test]
fn unacceptable_packets_are_answered_with_a_reset_and_change_nothing_else() {
    let mem = new_mem();
    let mut dev = new_dev();
    let listener = FakeListener::default();
    let connects = listener.connects.clone();
    dev.set_host_listener(listener);
    let rx_bufs = setup_queues(&mut dev, &mem, 4);

    let mut other_type = guest_packet(GUEST_PORT, op::REQUEST, &[]);
    other_type.header.type_ = 2;
    let unknown_op = guest_packet(GUEST_PORT + 1, 99, &[]);
    let no_connection = guest_packet(GUEST_PORT + 2, op::RW, b"abc");
    let mut other_host = guest_packet(GUEST_PORT + 3, op::REQUEST, &[]);
    other_host.header.dst_cid = 9;
    let packets = [other_type, unknown_op, no_connection, other_host];
    for (i, packet) in packets.iter().enumerate() {
        submit_tx(&mut dev, &mem, i as u16, i as u16, packet);
        let answer = read_rx_packet(&mem, rx_bufs[i]);
        assert_eq!(answer.header.op, op::RST);
        assert_eq!(answer.header.type_, packet_type::STREAM);
        assert_eq!(answer.header.src_cid, VSOCK_HOST_CID);
        assert_eq!(answer.header.src_port, SERVICE_PORT);
        assert_eq!(answer.header.dst_cid, GUEST_CID);
        assert_eq!(answer.header.dst_port, GUEST_PORT + i as u32);
        assert_eq!(answer.header.len, 0);
    }
    assert_eq!(connects.load(Ordering::Relaxed), 0);
    assert!(dev.active_connection_states().is_empty());
}

#[test]
fn data_from_the_host_leaves_the_credit_as_it_is() {
    let mem = new_mem();
    let mut dev = new_dev();
    let listener = FakeListener::default();
    let state = listener.state.clone();
    dev.set_host_listener(listener);
    let rx_bufs = setup_queues(&mut dev, &mem, 4);
    let request = guest_packet(GUEST_PORT, op::REQUEST, &[]);
    submit_tx(&mut dev, &mem, 0, 0, &request);
    let data = guest_packet(GUEST_PORT, op::RW, b"hello");
    submit_tx(&mut dev, &mem, 1, 1, &data);

    state.lock().unwrap().inbound.extend(b"answer".iter());
    assert_eq!(dev.pump_host_streams().unwrap(), 1);
    let packet = read_rx_packet(&mem, rx_bufs[1]);
    assert_eq!(packet.header.op, op::RW);
    assert_eq!(packet.data, b"answer");
    assert_eq!(packet.header.fwd_cnt, 5);
    assert_eq!(dev.active_connection_states()[0].fwd_cnt, 5);
}

#[test]
fn a_packet_carries_no_more_than_one_read_gives() {
    let mem = new_mem();
    let mut dev = new_dev();
    let listener = FakeListener::default();
    let state = listener.state.clone();
    dev.set_host_listener(listener);
    dev.set_guest_memory(mem.clone());
    config_queue(&mut dev, QUEUE_TX, TX_DESC, TX_AVAIL, TX_USED);
    let request = guest_packet(GUEST_PORT, op::REQUEST, &[]);
    submit_tx(&mut dev, &mem, 0, 0, &request);

    state.lock().unwrap().inbound.extend([7u8; 5000].iter());
    assert_eq!(dev.pump_host_streams().unwrap(), 1);
    assert_eq!(dev.pump_host_streams().unwrap(), 1);
    let sizes: Vec<usize> = dev.bridge.pending.iter().map(|p| p.data.len()).collect();
    assert_eq!(sizes, vec![0, 4096, 904]);
}

#[test]
fn a_header_that_was_read_is_written_as_it_stood() {
    let buf: Vec<u8> = (0..60u8).map(|i| i.wrapping_mul(37)).collect();
    let header = VsockPacketHeader::from_bytes(&buf).unwrap();
    assert_eq!(header.to_bytes()[..], buf[..VSOCK_HEADER_LEN]);
}
