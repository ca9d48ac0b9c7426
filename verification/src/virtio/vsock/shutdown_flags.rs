//! Flags of a SHUTDOWN packet.
use vstd::prelude::*;

verus! {

pub const RCV: u32 = 1;

pub const SEND: u32 = 2;

} // verus!
