use vmm_devices::virtio::regs::{reg, MAGIC};

#[test]
fn magic_reads_as_virt() {
    let bytes = MAGIC.to_le_bytes();
    assert_eq!(&bytes, b"virt");
}

#[test]
fn register_offsets_are_4_byte_aligned() {
    for &off in &[
        reg::MAGIC_VALUE,
        reg::VERSION,
        reg::DEVICE_ID,
        reg::VENDOR_ID,
        reg::HOST_FEATURES,
        reg::QUEUE_SEL,
        reg::QUEUE_NUM_MAX,
        reg::QUEUE_NUM,
        reg::QUEUE_READY,
        reg::QUEUE_DESC_LOW,
        reg::QUEUE_DESC_HIGH,
        reg::QUEUE_DRIVER_LOW,
        reg::QUEUE_DRIVER_HIGH,
        reg::QUEUE_DEVICE_LOW,
        reg::QUEUE_DEVICE_HIGH,
        reg::QUEUE_NOTIFY,
        reg::STATUS,
        reg::INTERRUPT_STATUS,
        reg::INTERRUPT_ACK,
    ] {
        assert_eq!(off % 4, 0, "offset 0x{off:x} not 4-byte aligned");
    }
}

#[test]
fn queue_ready_is_at_0x44_per_v2_spec() {
    assert_eq!(reg::QUEUE_READY, 0x044);
}

#[test]
fn no_offset_collisions() {
    let offsets = [
        reg::MAGIC_VALUE,
        reg::VERSION,
        reg::DEVICE_ID,
        reg::VENDOR_ID,
        reg::HOST_FEATURES,
        reg::HOST_FEATURES_SEL,
        reg::GUEST_FEATURES,
        reg::GUEST_FEATURES_SEL,
        reg::QUEUE_SEL,
        reg::QUEUE_NUM_MAX,
        reg::QUEUE_NUM,
        reg::QUEUE_READY,
        reg::QUEUE_DESC_LOW,
        reg::QUEUE_DESC_HIGH,
        reg::QUEUE_DRIVER_LOW,
        reg::QUEUE_DRIVER_HIGH,
        reg::QUEUE_DEVICE_LOW,
        reg::QUEUE_DEVICE_HIGH,
        reg::QUEUE_NOTIFY,
        reg::STATUS,
        reg::INTERRUPT_STATUS,
        reg::INTERRUPT_ACK,
    ];
    let set: std::collections::HashSet<u64> = offsets.iter().copied().collect();
    assert_eq!(set.len(), offsets.len(), "register offset collision");
}
