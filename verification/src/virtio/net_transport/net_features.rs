//! virtio-net feature bits the device advertises.
use vstd::prelude::*;

verus! {

pub const CSUM: u32 = 1;

pub const GUEST_CSUM: u32 = 4;

pub const MAC: u32 = 32;

} // verus!
