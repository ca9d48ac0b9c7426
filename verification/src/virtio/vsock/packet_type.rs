//! Types of virtio-vsock packets.
use vstd::prelude::*;

verus! {

pub const STREAM: u16 = 1;

} // verus!
