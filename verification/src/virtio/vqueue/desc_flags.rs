//! virtio descriptor flags.
use vstd::prelude::*;

verus! {

/// The chain goes on at the descriptor's `next` field.
pub const NEXT: u16 = 1;

/// The device may write the buffer.
pub const WRITE: u16 = 2;

/// The buffer holds a table of descriptors.
pub const INDIRECT: u16 = 4;

} // verus!
