//! virtio-mmio transport: decodes guest MMIO reads/writes into the register layout defined in
//! [`super::regs`]. This is the typed state container of a device without queues.
use crate::bus::{MmioDevice, MmioError, MmioReadResult, MmioWriteResult};
use crate::virtio::regs::{reg, MAGIC};
use vstd::prelude::*;

pub mod status;

verus! {

/// The virtio-mmio transport state for one device.
#[derive(Debug, Copy, Clone, PartialEq, Eq, Structural)]
pub struct VirtioMmio {
    /// Guest IRQ this device raises on kick.
    pub irq: u32,
    /// The device's identity (read from MAGIC_VALUE/VERSION/DEVICE_ID).
    pub device_id: u32,
    pub vendor_id: u32,
    pub version: u32,
    /// Current device status bitfield.
    pub status: u32,
    /// Selected feature-bank for HOST_FEATURES / GUEST_FEATURES (32-bit chunks).
    pub host_features_sel: u32,
    pub guest_features_sel: u32,
    /// Selected queue index for QUEUE_SEL.
    pub queue_sel: u32,
}

impl VirtioMmio {
    /// What the register at `off` reads.
    pub open spec fn register(self, off: u64) -> u32 {
        if off == reg::MAGIC_VALUE {
            MAGIC
        } else if off == reg::VERSION {
            self.version
        } else if off == reg::DEVICE_ID {
            self.device_id
        } else if off == reg::VENDOR_ID {
            self.vendor_id
        } else if off == reg::QUEUE_NUM_MAX {
            256
        } else if off == reg::STATUS {
            self.status
        } else {
            0
        }
    }

    /// The transport after `val` was written to the register at `off`.
    pub open spec fn written(self, off: u64, val: u32) -> VirtioMmio {
        if off == reg::STATUS {
            VirtioMmio { status: val, ..self }
        } else if off == reg::QUEUE_SEL {
            VirtioMmio { queue_sel: val, ..self }
        } else if off == reg::HOST_FEATURES_SEL {
            VirtioMmio { host_features_sel: val, ..self }
        } else if off == reg::GUEST_FEATURES_SEL {
            VirtioMmio { guest_features_sel: val, ..self }
        } else {
            self
        }
    }

    pub fn new(irq: u32, device_id: u32, vendor_id: u32, version: u32) -> (d: Self)
        ensures
            d == (VirtioMmio {
                irq,
                device_id,
                vendor_id,
                version,
                status: 0,
                host_features_sel: 0,
                guest_features_sel: 0,
                queue_sel: 0,
            }),
    {
        VirtioMmio {
            irq,
            device_id,
            vendor_id,
            version,
            status: 0,
            host_features_sel: 0,
            guest_features_sel: 0,
            queue_sel: 0,
        }
    }
}

/// The status that the driver writes is the status that it reads back.
pub proof fn law_status_round_trip(d: VirtioMmio, val: u32)
    ensures
        d.written(reg::STATUS, val).register(reg::STATUS) == val,
{
}

impl MmioDevice for VirtioMmio {
    open spec fn reads(&self, off: u64, len: u8, r: MmioReadResult) -> bool {
        r == Ok::<u64, MmioError>(self.register(off) as u64)
    }

    open spec fn writes(
        &self,
        off: u64,
        val: u64,
        len: u8,
        post: &Self,
        r: MmioWriteResult,
    ) -> bool {
        *post == self.written(off, val as u32) && r == Ok::<(), MmioError>(())
    }

    open spec fn inv(&self) -> bool {
        true
    }

    fn mmio_read(&self, off: u64, _len: u8) -> (r: MmioReadResult) {
        let val: u32 = if off == reg::MAGIC_VALUE {
            MAGIC
        } else if off == reg::VERSION {
            self.version
        } else if off == reg::DEVICE_ID {
            self.device_id
        } else if off == reg::VENDOR_ID {
            self.vendor_id
        } else if off == reg::QUEUE_NUM_MAX {
            256
        } else if off == reg::STATUS {
            self.status
        } else {
            0
        };
        Ok(val as u64)
    }

    fn mmio_write(&mut self, off: u64, val: u64, _len: u8) -> (r: MmioWriteResult) {
        let val: u32 = val as u32;
        if off == reg::STATUS {
            self.status = val;
        } else if off == reg::QUEUE_SEL {
            self.queue_sel = val;
        } else if off == reg::HOST_FEATURES_SEL {
            self.host_features_sel = val;
        } else if off == reg::GUEST_FEATURES_SEL {
            self.guest_features_sel = val;
        }
        Ok(())
    }
}

/// A register reads what it is for, and a write changes the field that it is for and no other.
pub proof fn law_plain_transport_registers(d: VirtioMmio, off: u64, val: u32)
    ensures
        d.register(0) == 0x7472_6976,
        d.register(4) == d.version,
        d.register(8) == d.device_id,
        d.register(0xc) == d.vendor_id,
        d.register(0x34) == 256,
        d.register(0x70) == d.status,
        off != 0 && off != 4 && off != 8 && off != 0xc && off != 0x34 && off != 0x70
            ==> d.register(off) == 0,
        d.written(off, val) == (VirtioMmio {
            status: if off == 0x70 {
                val
            } else {
                d.status
            },
            queue_sel: if off == 0x30 {
                val
            } else {
                d.queue_sel
            },
            host_features_sel: if off == 0x14 {
                val
            } else {
                d.host_features_sel
            },
            guest_features_sel: if off == 0x24 {
                val
            } else {
                d.guest_features_sel
            },
            ..d
        }),
{
}

} // verus!
