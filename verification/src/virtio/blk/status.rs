//! The status byte that the device writes into the last writable descriptor of a chain after a
//! request completes (virtio 1.x, section 5.2.5).
use vstd::prelude::*;

verus! {

pub const OK: u8 = 0;

pub const IO_ERR: u8 = 1;

pub const UNSUPP: u8 = 2;

} // verus!
