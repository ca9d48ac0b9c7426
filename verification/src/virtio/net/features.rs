//! virtio-net feature bits the device advertises (virtio 1.x, section 5.1.5).
use vstd::prelude::*;

verus! {

pub const CSUM: u32 = 1;

pub const GUEST_CSUM: u32 = 4;

pub const MAC: u32 = 32;

pub const EVENT_IDX: u32 = 0x2000_0000;

} // verus!
