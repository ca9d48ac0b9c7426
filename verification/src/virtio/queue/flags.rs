//! Descriptor flags.
use vstd::prelude::*;

verus! {

pub const NEXT: u16 = 1;

pub const WRITE: u16 = 2;

pub const INDIRECT: u16 = 4;

} // verus!
