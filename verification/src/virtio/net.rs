//! virtio-net device: tap-backed NIC over virtio-mmio.
//!
//! Each microVM gets a `virtio-net` device backed by a host tap interface. This module owns the
//! device-side identity.
use crate::persist::Persist;
use vstd::prelude::*;

pub mod features;

verus! {

/// Default MAC assigned to a microVM NIC when none is configured (locally-administered,
/// unicast).
pub const DEFAULT_MAC: [u8; 6] = [0x02, 0x00, 0x00, 0x00, 0x00, 0x01];

/// What a [`VirtioNet`] saves.
#[derive(Debug, Default, Copy, Clone, PartialEq, Eq)]
pub struct NetState {
    pub mac: [u8; 6],
}

/// The identity of a NIC.
pub struct VirtioNet {
    pub mac: [u8; 6],
    pub tap_name: String,
    /// Host-side features advertised to the guest.
    pub features: u32,
}

impl VirtioNet {
    pub fn new(tap_name: String, mac: Option<[u8; 6]>) -> (n: Self)
        ensures
            n.mac == (match mac {
                Some(m) => m,
                None => DEFAULT_MAC,
            }),
            n.tap_name == tap_name,
            n.features == features::MAC,
    {
        VirtioNet {
            mac: match mac {
                Some(m) => m,
                None => DEFAULT_MAC,
            },
            tap_name,
            features: features::MAC,
        }
    }
}

impl Persist for VirtioNet {
    type State = NetState;

    fn save(&self) -> (s: NetState)
        ensures
            s.mac == self.mac,
    {
        NetState { mac: self.mac }
    }

    fn restore(&mut self, state: NetState)
        ensures
            final(self).mac == state.mac,
            final(self).tap_name == old(self).tap_name,
            final(self).features == old(self).features,
    {
        self.mac = state.mac;
    }
}

} // verus!
