//! What the counters of a virtio-blk device say about how far the guest's driver came.
use crate::virtio::blk_transport::status_bits;
use vstd::prelude::*;

verus! {

/// The counters of a device after the guest ran for a while.
#[derive(Debug, Clone, Copy, PartialEq, Eq, Structural)]
pub struct ProbeResult {
    pub status_writes: u64,
    pub notify_count: u64,
    pub final_status: u32,
    pub activated: bool,
    pub elapsed_ms: u64,
}

/// The steps of the handshake that a summary names, in its order.
#[derive(Debug, Clone, Copy, PartialEq, Eq, Structural)]
pub enum StatusFlag {
    Acknowledge,
    Driver,
    FeaturesOk,
    DriverOk,
    Failed,
}

impl StatusFlag {
    /// The name under which a summary lists the flag.
    pub fn name(self) -> (s: &'static str)
        ensures
            s@ == (match self {
                StatusFlag::Acknowledge => "ACK"@,
                StatusFlag::Driver => "DRIVER"@,
                StatusFlag::FeaturesOk => "FEATURES_OK"@,
                StatusFlag::DriverOk => "DRIVER_OK"@,
                StatusFlag::Failed => "FAILED"@,
            }),
    {
        match self {
            StatusFlag::Acknowledge => "ACK",
            StatusFlag::Driver => "DRIVER",
            StatusFlag::FeaturesOk => "FEATURES_OK",
            StatusFlag::DriverOk => "DRIVER_OK",
            StatusFlag::Failed => "FAILED",
        }
    }

    pub open spec fn bit(self) -> u32 {
        match self {
            StatusFlag::Acknowledge => status_bits::ACKNOWLEDGE,
            StatusFlag::Driver => status_bits::DRIVER,
            StatusFlag::FeaturesOk => status_bits::FEATURES_OK,
            StatusFlag::DriverOk => status_bits::DRIVER_OK,
            StatusFlag::Failed => status_bits::FAILED,
        }
    }
}

/// `flags` with `flag` behind them where the status has it.
pub open spec fn with_flag(flags: Seq<StatusFlag>, status: u32, flag: StatusFlag) -> Seq<
    StatusFlag,
> {
    if status & flag.bit() != 0 {
        flags.push(flag)
    } else {
        flags
    }
}

/// The flags of a status, in the order of the handshake.
pub open spec fn status_flags(status: u32) -> Seq<StatusFlag> {
    let s = with_flag(Seq::empty(), status, StatusFlag::Acknowledge);
    let s = with_flag(s, status, StatusFlag::Driver);
    let s = with_flag(s, status, StatusFlag::FeaturesOk);
    let s = with_flag(s, status, StatusFlag::DriverOk);
    with_flag(s, status, StatusFlag::Failed)
}

impl ProbeResult {
    /// The flags that a summary lists.
    pub fn flags(&self) -> (v: Vec<StatusFlag>)
        ensures
            v@ == status_flags(self.final_status),
    {
        let bits: u32 = self.final_status;
        let mut v: Vec<StatusFlag> = Vec::new();
        if bits & status_bits::ACKNOWLEDGE != 0 {
            v.push(StatusFlag::Acknowledge);
        }
        if bits & status_bits::DRIVER != 0 {
            v.push(StatusFlag::Driver);
        }
        if bits & status_bits::FEATURES_OK != 0 {
            v.push(StatusFlag::FeaturesOk);
        }
        if bits & status_bits::DRIVER_OK != 0 {
            v.push(StatusFlag::DriverOk);
        }
        if bits & status_bits::FAILED != 0 {
            v.push(StatusFlag::Failed);
        }
        assert(v@ =~= status_flags(bits));
        v
    }
}

} // verus!
