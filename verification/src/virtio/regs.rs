//! virtio-mmio transport register layout (virtio v1.x, "Virtio over MMIO").
use vstd::prelude::*;

pub mod reg;

verus! {

/// The magic value a virtio-mmio device's first register must read: "virt".
pub const MAGIC: u32 = 0x7472_6976;

/// A device's static identity (read from the first few registers).
#[derive(Debug, Copy, Clone, PartialEq, Eq, Structural)]
pub struct VirtioMmioId {
    pub device_id: u32,
    pub vendor_id: u32,
    pub version: u32,
}

} // verus!
