use vmm_devices::persist::Persist;
use vmm_devices::virtio::net::{features, VirtioNet, DEFAULT_MAC};

#[test]
fn default_mac_is_local_unicast() {
    // First byte's low bit (unicast/multicast) is 0, second-high bit
    // (local/global) is 1: locally-administered unicast.
    assert_eq!(DEFAULT_MAC[0] & 0b11, 0b10);
}

#[test]
fn new_uses_provided_mac_or_default() {
    let n = VirtioNet::new("tap0".into(), None);
    assert_eq!(n.mac, DEFAULT_MAC);
    let n = VirtioNet::new("tap0".into(), Some([0xAA; 6]));
    assert_eq!(n.mac, [0xAA; 6]);
}

#[test]
fn net_persist_round_trip() {
    let n = VirtioNet::new("tap0".into(), Some([1, 2, 3, 4, 5, 6]));
    let st = n.save();
    let mut n2 = VirtioNet::new("tap1".into(), None);
    n2.restore(st);
    assert_eq!(n2.mac, [1, 2, 3, 4, 5, 6]);
}

#[test]
fn features_include_mac() {
    let n = VirtioNet::new("tap0".into(), None);
    assert_ne!(n.features & features::MAC, 0);
}
