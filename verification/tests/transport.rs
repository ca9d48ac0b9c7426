use vmm_devices::bus::{MmioBus, MmioDevice, MmioRange};
use vmm_devices::virtio::regs::{reg, MAGIC};
use vmm_devices::virtio::transport::{status, VirtioMmio};

#[test]
fn transport_magic_reads_back_as_virt() {
    let dev = VirtioMmio::new(5, /* block */ 2, 0, 2);
    assert_eq!(dev.mmio_read(reg::MAGIC_VALUE, 4).unwrap(), MAGIC as u64);
    let bytes = (dev.mmio_read(reg::MAGIC_VALUE, 4).unwrap() as u32).to_le_bytes();
    assert_eq!(&bytes, b"virt");
}

#[test]
fn status_round_trips_through_register() {
    let mut dev = VirtioMmio::new(5, 2, 0, 2);
    dev.mmio_write(reg::STATUS, status::ACKNOWLEDGE as u64, 4)
        .unwrap();
    assert_eq!(
        dev.mmio_read(reg::STATUS, 4).unwrap(),
        status::ACKNOWLEDGE as u64
    );
}

#[test]
fn bus_dispatches_to_virtio_device() {
    let mut bus = MmioBus::new();
    let dev = VirtioMmio::new(5, 2, 0, 2);
    bus.insert(MmioRange::new(0xd000_0000, 0x1000), Box::new(dev))
        .unwrap();
    // Reading MAGIC_VALUE at the device's base + 0 should give "virt".
    assert_eq!(
        bus.read(0xd000_0000 + reg::MAGIC_VALUE, 4).unwrap(),
        MAGIC as u64
    );
    // DEVICE_ID at base + 0x008 should give 2 (block).
    assert_eq!(bus.read(0xd000_0000 + reg::DEVICE_ID, 4).unwrap(), 2);
}
