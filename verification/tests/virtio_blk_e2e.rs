//! A disk image behind a block device, driven through its queue.
use std::sync::{Arc, Mutex};
use vm_memory::{Bytes, GuestAddress, GuestMemoryMmap};
use vmm_devices::bus::MmioDevice;
use vmm_devices::virtio::blk::req_type;
use vmm_devices::virtio::blk_backend::{BlkBackend, DiskOp};
use vmm_devices::virtio::blk_transport::{status_bits, VirtioBlkMmio};
use vmm_devices::virtio::regs::reg;
use vmm_devices::virtio::vqueue::Descriptor;

const DESC_TABLE_ADDR: u64 = 0x800000;
const AVAIL_RING_ADDR: u64 = 0x900000;
const USED_RING_ADDR: u64 = 0xA00000;
const DATA_BUF_ADDR: u64 = 0xB00000;
const STATUS_ADDR: u64 = 0xB01000;
const HEADER_ADDR: u64 = 0xC00000;
const QUEUE_SIZE: u16 = 64;

type Io = Box<dyn Fn(DiskOp) -> Option<Vec<u8>> + Send + Sync>;

fn backend(bytes: Vec<u8>, read_only: bool) -> BlkBackend<Io> {
    let len = bytes.len() as u64;
    let image = Arc::new(Mutex::new(bytes));
    let io: Io = Box::new(move |op| {
        let mut bytes = image.lock().unwrap();
        match op {
            DiskOp::Read { offset, len, .. } => {
                let start = offset as usize;
                bytes.get(start..start + len).map(|part| part.to_vec())
            }
            DiskOp::Write { offset, data, .. } => {
                let start = offset as usize;
                bytes[start..start + data.len()].copy_from_slice(&data);
                Some(Vec::new())
            }
            _ => Some(Vec::new()),
        }
    });
    BlkBackend::open(io, len, read_only)
}

fn new_mem() -> GuestMemoryMmap {
    GuestMemoryMmap::from_ranges(&[(GuestAddress(0), 16 * 1024 * 1024)]).unwrap()
}

fn put(mem: &GuestMemoryMmap, bytes: &[u8], addr: u64) {
    mem.write_slice(bytes, GuestAddress(addr)).unwrap();
}

/// Write a descriptor at a given index in the descriptor table.
fn write_desc(mem: &GuestMemoryMmap, idx: usize, desc: Descriptor) {
    put(mem, &desc.to_bytes(), DESC_TABLE_ADDR + idx as u64 * 16);
}

/// Write the avail ring: flags=0, idx, ring[0]=head_idx.
fn write_avail(mem: &GuestMemoryMmap, head_idx: u16, avail_idx: u16) {
    put(mem, &0u16.to_le_bytes(), AVAIL_RING_ADDR);
    put(mem, &avail_idx.to_le_bytes(), AVAIL_RING_ADDR + 2);
    put(mem, &head_idx.to_le_bytes(), AVAIL_RING_ADDR + 4);
}

/// Write the used ring: flags=0, idx=0.
fn write_used(mem: &GuestMemoryMmap) {
    put(mem, &[0; 4], USED_RING_ADDR);
}

fn write_header(mem: &GuestMemoryMmap, req_type: u32, sector: u64) {
    let mut b = req_type.to_le_bytes().to_vec();
    b.extend_from_slice(&0u32.to_le_bytes());
    b.extend_from_slice(&sector.to_le_bytes());
    put(mem, &b, HEADER_ADDR);
}

/// Read the status byte.
fn read_status(mem: &GuestMemoryMmap) -> u8 {
    let mut b = [0xFF];
    mem.read_slice(&mut b, GuestAddress(STATUS_ADDR)).unwrap();
    b[0]
}

/// Read a data buffer from guest memory.
fn read_data(mem: &GuestMemoryMmap, len: usize) -> Vec<u8> {
    let mut buf = vec![0u8; len];
    mem.read_slice(&mut buf, GuestAddress(DATA_BUF_ADDR)).unwrap();
    buf
}

fn desc(addr: u64, len: u32, flags: u16, next: u16) -> Descriptor {
    Descriptor {
        addr,
        len,
        flags,
        next,
    }
}

fn setup_read_request(mem: &GuestMemoryMmap, sector: u64, buf_len: u32, avail_idx: u16) {
    write_header(mem, req_type::IN, sector);
    // Desc 0: header (readable, NEXT to 1)
    write_desc(mem, 0, desc(HEADER_ADDR, 16, 0x1, 1));
    // Desc 1: data buffer (writable, NEXT to 2)
    write_desc(mem, 1, desc(DATA_BUF_ADDR, buf_len, 0x3, 2));
    // Desc 2: status (writable, no NEXT)
    write_desc(mem, 2, desc(STATUS_ADDR, 1, 0x2, 0));
    write_avail(mem, 0, avail_idx);
    write_used(mem);
    put(mem, &[0], STATUS_ADDR);
}

fn setup_write_request(mem: &GuestMemoryMmap, sector: u64, data: &[u8], avail_idx: u16) {
    put(mem, data, DATA_BUF_ADDR);
    write_header(mem, req_type::OUT, sector);
    write_desc(mem, 0, desc(HEADER_ADDR, 16, 0x1, 1));
    // Desc 1: data (readable, NEXT to 2)
    write_desc(mem, 1, desc(DATA_BUF_ADDR, data.len() as u32, 0x1, 2));
    write_desc(mem, 2, desc(STATUS_ADDR, 1, 0x2, 0));
    write_avail(mem, 0, avail_idx);
    write_used(mem);
    put(mem, &[0], STATUS_ADDR);
}

fn setup_flush_request(mem: &GuestMemoryMmap, avail_idx: u16) {
    write_header(mem, req_type::FLUSH, 0);
    write_desc(mem, 0, desc(HEADER_ADDR, 16, 0x1, 1));
    write_desc(mem, 1, desc(STATUS_ADDR, 1, 0x2, 0));
    write_avail(mem, 0, avail_idx);
    write_used(mem);
    put(mem, &[0], STATUS_ADDR);
}

fn configure_queue(dev: &mut VirtioBlkMmio<Io>, mem: &GuestMemoryMmap) {
    dev.set_guest_memory(mem.clone());
    dev.mmio_write(reg::QUEUE_SEL, 0, 4).unwrap();
    dev.mmio_write(reg::QUEUE_NUM, QUEUE_SIZE as u64, 4)
        .unwrap();
    dev.mmio_write(reg::QUEUE_DESC_LOW, DESC_TABLE_ADDR, 4)
        .unwrap();
    dev.mmio_write(reg::QUEUE_DESC_HIGH, 0, 4).unwrap();
    dev.mmio_write(reg::QUEUE_DRIVER_LOW, AVAIL_RING_ADDR, 4)
        .unwrap();
    dev.mmio_write(reg::QUEUE_DRIVER_HIGH, 0, 4).unwrap();
    dev.mmio_write(reg::QUEUE_DEVICE_LOW, USED_RING_ADDR, 4)
        .unwrap();
    dev.mmio_write(reg::QUEUE_DEVICE_HIGH, 0, 4).unwrap();
    dev.mmio_write(reg::QUEUE_READY, 1, 4).unwrap();
    dev.mmio_write(reg::STATUS, status_bits::DRIVER_OK as u64, 4)
        .unwrap();
}

#[test]
fn virtio_blk_read_e2e() {
    let mut image = vec![0xAA; 512 * 4];
    image.extend_from_slice(&[0xBB; 512 * 4]);
    let backend = backend(image, false);
    assert_eq!(backend.sectors, 8);
    let mut dev = VirtioBlkMmio::new(5, backend);

    let mem = new_mem();
    configure_queue(&mut dev, &mem);

    // READ sector 0 (should be 0xAA).
    setup_read_request(&mem, 0, 512, 1);
    dev.mmio_write(reg::QUEUE_NOTIFY, 0, 4).unwrap();

    let status = read_status(&mem);
    let data = read_data(&mem, 512);
    assert_eq!(status, 0, "read status should be OK");
    assert!(data.iter().all(|&b| b == 0xAA), "sector 0 should be 0xAA");

    // READ sector 4 (should be 0xBB).
    setup_read_request(&mem, 4, 512, 2);
    dev.mmio_write(reg::QUEUE_NOTIFY, 0, 4).unwrap();
    let status = read_status(&mem);
    let data = read_data(&mem, 512);
    assert_eq!(status, 0, "read sector 4 status should be OK");
    // The second avail slot names descriptor 0 as the first did.
    assert!(data.iter().all(|&b| b == 0xBB), "sector 4 should be 0xBB");
}

#[test]
fn virtio_blk_write_e2e() {
    let mut dev = VirtioBlkMmio::new(5, backend(vec![0u8; 4096], false));

    let mem = new_mem();
    configure_queue(&mut dev, &mem);

    // WRITE 0xCC to sector 0.
    let write_data = vec![0xCCu8; 512];
    setup_write_request(&mem, 0, &write_data, 1);
    dev.mmio_write(reg::QUEUE_NOTIFY, 0, 4).unwrap();
    let status = read_status(&mem);
    assert_eq!(status, 0, "write status should be OK");

    // READ back to verify.
    setup_read_request(&mem, 0, 512, 1);
    dev.mmio_write(reg::QUEUE_NOTIFY, 0, 4).unwrap();
    let status = read_status(&mem);
    assert_eq!(status, 0, "read-after-write status should be OK");
    let data = read_data(&mem, 512);
    assert!(
        data.iter().all(|&b| b == 0xCC),
        "sector 0 should be 0xCC after write"
    );
}

#[test]
fn virtio_blk_flush_e2e() {
    let mut dev = VirtioBlkMmio::new(5, backend(vec![0u8; 512], false));

    let mem = new_mem();
    configure_queue(&mut dev, &mem);

    setup_flush_request(&mem, 1);
    dev.mmio_write(reg::QUEUE_NOTIFY, 0, 4).unwrap();
    let status = read_status(&mem);
    assert_eq!(status, 0, "flush status should be OK");
}

#[test]
fn virtio_blk_read_only_rejects_write() {
    let mut dev = VirtioBlkMmio::new(5, backend(vec![0u8; 512], true));

    let mem = new_mem();
    configure_queue(&mut dev, &mem);

    let write_data = vec![0xDDu8; 512];
    setup_write_request(&mem, 0, &write_data, 1);
    dev.mmio_write(reg::QUEUE_NOTIFY, 0, 4).unwrap();
    let status = read_status(&mem);
    assert_eq!(
        status, 1,
        "write to read-only device should return IO_ERR (1)"
    );
}

#[test]
fn virtio_blk_out_of_bounds_rejected() {
    let backend = backend(vec![0u8; 512], false);
    assert_eq!(backend.sectors, 1);
    let mut dev = VirtioBlkMmio::new(5, backend);

    let mem = new_mem();
    configure_queue(&mut dev, &mem);

    setup_read_request(&mem, 5, 512, 1);
    dev.mmio_write(reg::QUEUE_NOTIFY, 0, 4).unwrap();
    let status = read_status(&mem);
    assert_eq!(status, 1, "out-of-bounds read should return IO_ERR (1)");
}

#[test]
fn virtio_blk_oob_guest_addr_rejected() {
    let mut dev = VirtioBlkMmio::new(5, backend(vec![0xAAu8; 512], false));
    let mem = new_mem();
    configure_queue(&mut dev, &mem);

    // A read request for sector 0.
    write_header(&mem, req_type::IN, 0);
    // Descriptor 0: readable, points to the valid header.
    write_desc(&mem, 0, desc(HEADER_ADDR, 16, 1, 1));
    // Descriptor 1: writable, points to address 0xDEAD_BEEF (way past 16MB).
    write_desc(&mem, 1, desc(0xDEAD_BEEF, 512, 2, 2));
    // Descriptor 2: writable status byte at a valid address.
    write_desc(&mem, 2, desc(STATUS_ADDR, 1, 2, 0));

    write_avail(&mem, 0, 1);
    dev.mmio_write(reg::QUEUE_NOTIFY, 0, 4).unwrap();

    let status = read_status(&mem);
    assert!(
        status == 0 || status == 1,
        "OOB guest addr should not crash, got status={status}"
    );
}

#[test]
fn virtio_blk_oversized_desc_len_rejected() {
    let mut dev = VirtioBlkMmio::new(5, backend(vec![0u8; 512], false));
    let mem = new_mem();
    configure_queue(&mut dev, &mem);

    write_header(&mem, req_type::IN, 0);
    write_desc(&mem, 0, desc(HEADER_ADDR, 16, 1, 1));
    // Descriptor 1: writable with an absurd len (2 GiB).
    write_desc(&mem, 1, desc(DATA_BUF_ADDR, 2 * 1024 * 1024 * 1024, 2, 2));
    write_desc(&mem, 2, desc(STATUS_ADDR, 1, 2, 0));

    write_avail(&mem, 0, 1);
    dev.mmio_write(reg::QUEUE_NOTIFY, 0, 4).unwrap();

    // Must not crash, must not exhaust memory.
    let status = read_status(&mem);
    assert!(
        status == 0 || status == 1,
        "oversized desc should not crash/OOM, got status={status}"
    );
}
