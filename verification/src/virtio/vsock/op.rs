//! Operations of virtio-vsock packets.
use vstd::prelude::*;

verus! {

pub const INVALID: u16 = 0;

pub const REQUEST: u16 = 1;

pub const RESPONSE: u16 = 2;

pub const RST: u16 = 3;

pub const SHUTDOWN: u16 = 4;

pub const RW: u16 = 5;

pub const CREDIT_UPDATE: u16 = 6;

pub const CREDIT_REQUEST: u16 = 7;

} // verus!
