use vmm_devices::persist::Persist;
use vmm_devices::virtio::rng::{RngState, VirtioRng};

#[test]
fn fill_entropy_produces_nonzero_bytes() {
    let mut rng = VirtioRng::new();
    let mut buf = [0u8; 32];
    rng.fill_entropy(&mut buf).unwrap();
    // At least some bytes should be non-zero.
    assert!(buf.iter().any(|&b| b != 0));
    assert_eq!(rng.bytes_served, 32);
}

#[test]
fn restore_resets_byte_count() {
    let mut rng = VirtioRng::new();
    rng.bytes_served = 999;
    rng.restore(RngState { bytes_served: 999 });
    assert_eq!(
        rng.bytes_served, 0,
        "clones must start with fresh entropy count"
    );
}

#[test]
fn two_fill_calls_produce_different_output() {
    let mut rng = VirtioRng::new();
    let mut buf1 = [0u8; 16];
    let mut buf2 = [0u8; 16];
    rng.fill_entropy(&mut buf1).unwrap();
    rng.fill_entropy(&mut buf2).unwrap();
    assert_ne!(buf1, buf2, "consecutive entropy pulls must differ");
}

#[test]
fn an_empty_request_succeeds_and_serves_nothing() {
    let mut rng = VirtioRng::default();
    rng.fill_entropy(&mut []).unwrap();
    assert_eq!(rng.save(), RngState { bytes_served: 0 });
}
