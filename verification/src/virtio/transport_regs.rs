//! The negotiation registers of a virtio-mmio transport.
use crate::virtio::blk_transport::status_bits;
use crate::virtio::regs::reg;
use vstd::prelude::*;

verus! {

/// The bit of the interrupt status that stands for a used buffer.
pub const VIRTIO_MMIO_INT_VRING: u32 = 1;

/// A feature mask that lets every bit through.
pub const ALL_FEATURES: u32 = 0xffff_ffff;

/// What the driver has negotiated with the device.
#[derive(Debug, Copy, Clone, PartialEq, Eq, Structural)]
pub struct TransportRegs {
    pub status: u32,
    pub queue_sel: u32,
    /// Feature-bank selector for HOST_FEATURES (0 = low 32, 1 = high 32).
    pub host_features_sel: u32,
    /// Feature-bank selector for GUEST_FEATURES.
    pub guest_features_sel: u32,
    /// Acknowledged guest features (low 32 bits).
    pub guest_features_low: u32,
    /// Acknowledged guest features (high 32 bits).
    pub guest_features_high: u32,
    /// Whether the device has been activated (DRIVER_OK set).
    pub activated: bool,
    /// Interrupt status (set when the device raises an interrupt).
    pub interrupt_status: u32,
}

/// The features of `val` that a mask lets through.
pub open spec fn masked(val: u32, mask: u32) -> u32 {
    if mask == ALL_FEATURES {
        val
    } else {
        val & mask
    }
}

impl TransportRegs {
    /// The registers of a device that was just reset.
    pub open spec fn cleared() -> TransportRegs {
        TransportRegs {
            status: 0,
            queue_sel: 0,
            host_features_sel: 0,
            guest_features_sel: 0,
            guest_features_low: 0,
            guest_features_high: 0,
            activated: false,
            interrupt_status: 0,
        }
    }

    /// The registers after a write to the one at `off`, for a device that accepts the features
    /// of the two masks. Status and queue registers are not among them.
    pub open spec fn written(
        self,
        off: u64,
        val: u32,
        mask_low: u32,
        mask_high: u32,
    ) -> TransportRegs {
        if off == reg::HOST_FEATURES_SEL {
            TransportRegs { host_features_sel: val, ..self }
        } else if off == reg::GUEST_FEATURES_SEL {
            TransportRegs { guest_features_sel: val, ..self }
        } else if off == reg::QUEUE_SEL {
            TransportRegs { queue_sel: val, ..self }
        } else if off == reg::INTERRUPT_ACK {
            TransportRegs { interrupt_status: self.interrupt_status & !val, ..self }
        } else if off == reg::GUEST_FEATURES && self.guest_features_sel == 0 {
            TransportRegs { guest_features_low: masked(val, mask_low), ..self }
        } else if off == reg::GUEST_FEATURES && self.guest_features_sel == 1 {
            TransportRegs { guest_features_high: masked(val, mask_high), ..self }
        } else {
            self
        }
    }

    /// The registers after a status write that is no reset: DRIVER_OK activates the device.
    pub open spec fn with_status(self, val: u32) -> TransportRegs {
        TransportRegs {
            status: val,
            activated: self.activated || val & status_bits::DRIVER_OK != 0,
            ..self
        }
    }

    /// The registers with an interrupt raised.
    pub open spec fn interrupted(self, kind: u32) -> TransportRegs {
        TransportRegs { interrupt_status: self.interrupt_status | kind, ..self }
    }

    pub fn new() -> (r: Self)
        ensures
            r == TransportRegs::cleared(),
    {
        TransportRegs {
            status: 0,
            queue_sel: 0,
            host_features_sel: 0,
            guest_features_sel: 0,
            guest_features_low: 0,
            guest_features_high: 0,
            activated: false,
            interrupt_status: 0,
        }
    }

    pub fn write(&mut self, off: u64, val: u32, mask_low: u32, mask_high: u32)
        ensures
            *final(self) == old(self).written(off, val, mask_low, mask_high),
    {
        if off == reg::HOST_FEATURES_SEL {
            self.host_features_sel = val;
        } else if off == reg::GUEST_FEATURES_SEL {
            self.guest_features_sel = val;
        } else if off == reg::QUEUE_SEL {
            self.queue_sel = val;
        } else if off == reg::INTERRUPT_ACK {
            self.interrupt_status = self.interrupt_status & !val;
        } else if off == reg::GUEST_FEATURES {
            if self.guest_features_sel == 0 {
                self.guest_features_low = mask_features(val, mask_low);
            } else if self.guest_features_sel == 1 {
                self.guest_features_high = mask_features(val, mask_high);
            }
        }
    }

    pub fn set_status(&mut self, val: u32)
        ensures
            *final(self) == old(self).with_status(val),
    {
        self.status = val;
        if val & status_bits::DRIVER_OK != 0 {
            self.activated = true;
        }
    }

    pub fn raise(&mut self, kind: u32)
        ensures
            *final(self) == old(self).interrupted(kind),
    {
        self.interrupt_status = self.interrupt_status | kind;
    }
}

fn mask_features(val: u32, mask: u32) -> (r: u32)
    ensures
        r == masked(val, mask),
{
    if mask == ALL_FEATURES {
        val
    } else {
        val & mask
    }
}

/// The value of a counter after one more event.
pub open spec fn counted(n: u64) -> u64 {
    if n == u64::MAX {
        0
    } else {
        (n + 1) as u64
    }
}

/// The value of a counter after `k` more events.
pub open spec fn counted_by(n: u64, k: u64) -> u64 {
    if n + k > u64::MAX {
        (n + k - 0x1_0000_0000_0000_0000) as u64
    } else {
        (n + k) as u64
    }
}

/// An interrupt that the driver acknowledges is no longer pending.
pub proof fn law_ack_clears_interrupt(regs: TransportRegs, bits: u32)
    ensures
        regs.written(reg::INTERRUPT_ACK, bits, ALL_FEATURES, ALL_FEATURES).interrupt_status & bits
            == 0,
        regs.interrupted(bits).interrupt_status & bits == bits,
{
    let s = regs.interrupt_status;
    assert((s & !bits) & bits == 0) by (bit_vector);
    assert((s | bits) & bits == bits) by (bit_vector);
}

} // verus!
