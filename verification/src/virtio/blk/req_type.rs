//! virtio-blk request types (virtio 1.x, section 5.2.5).
use vstd::prelude::*;

verus! {

/// Read.
pub const IN: u32 = 0;

/// Write.
pub const OUT: u32 = 1;

pub const FLUSH: u32 = 4;

pub const GET_ID: u32 = 8;

pub const DISCARD: u32 = 11;

pub const WRITE_ZEROES: u32 = 13;

} // verus!
