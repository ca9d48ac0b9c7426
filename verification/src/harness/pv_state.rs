//! The paravirtual MSRs that a snapshot must hold for each vCPU.
use std::collections::BTreeMap;
use vstd::prelude::*;

verus! {

pub const MSR_KVM_SYSTEM_TIME_NEW: u32 = 0x4b56_4d01;

pub const MSR_KVM_ASYNC_PF_EN: u32 = 0x4b56_4d02;

pub const MSR_KVM_STEAL_TIME: u32 = 0x4b56_4d03;

pub const MSR_KVM_PV_EOI_EN: u32 = 0x4b56_4d04;

pub const MSR_KVM_ASYNC_PF_INT: u32 = 0x4b56_4d06;

/// What is wrong with the MSRs of a snapshot.
#[derive(Debug, Copy, Clone, PartialEq, Eq, Structural)]
pub enum PvStateError {
    /// There are not two vCPUs, one boot processor and one other.
    WrongCount,
    /// A vCPU's MSR is missing.
    Omitted { vcpu: usize, index: u32 },
    /// The vector of asynchronous page faults is none that can be delivered.
    BadVector { vcpu: usize },
    /// A feature of an enabled vCPU is off.
    Disabled { vcpu: usize, index: u32 },
    /// A feature of a vCPU that is offline is on.
    Enabled { vcpu: usize, index: u32 },
}

/// What is wrong with one feature MSR, which must be on or be zero.
pub open spec fn feature_error(vcpu: usize, index: u32, value: u64, enabled: bool) -> Option<
    PvStateError,
> {
    if enabled && value % 2 != 1 {
        Some(PvStateError::Disabled { vcpu, index })
    } else if !enabled && value != 0 {
        Some(PvStateError::Enabled { vcpu, index })
    } else {
        None
    }
}

/// The first of two complaints.
pub open spec fn or_else(a: Option<PvStateError>, b: Option<PvStateError>) -> Option<PvStateError> {
    if a is Some {
        a
    } else {
        b
    }
}

pub open spec fn omission(vcpu: usize, values: Map<u32, u64>, index: u32) -> Option<PvStateError> {
    if values.dom().contains(index) {
        None
    } else {
        Some(PvStateError::Omitted { vcpu, index })
    }
}

/// The first thing that is wrong with a vCPU's MSRs: a missing one, the vector, or a feature.
pub open spec fn vcpu_error(vcpu: usize, values: Map<u32, u64>, enabled: bool) -> Option<
    PvStateError,
> {
    let missing = or_else(
        omission(vcpu, values, MSR_KVM_SYSTEM_TIME_NEW),
        or_else(
            omission(vcpu, values, MSR_KVM_ASYNC_PF_EN),
            or_else(
                omission(vcpu, values, MSR_KVM_STEAL_TIME),
                or_else(
                    omission(vcpu, values, MSR_KVM_PV_EOI_EN),
                    omission(vcpu, values, MSR_KVM_ASYNC_PF_INT),
                ),
            ),
        ),
    );
    if missing is Some {
        missing
    } else if values[MSR_KVM_ASYNC_PF_INT] % 0x100 < 0x20 {
        Some(PvStateError::BadVector { vcpu })
    } else {
        or_else(
            feature_error(
                vcpu,
                MSR_KVM_SYSTEM_TIME_NEW,
                values[MSR_KVM_SYSTEM_TIME_NEW],
                enabled,
            ),
            or_else(
                feature_error(vcpu, MSR_KVM_ASYNC_PF_EN, values[MSR_KVM_ASYNC_PF_EN], enabled),
                or_else(
                    feature_error(vcpu, MSR_KVM_STEAL_TIME, values[MSR_KVM_STEAL_TIME], enabled),
                    feature_error(vcpu, MSR_KVM_PV_EOI_EN, values[MSR_KVM_PV_EOI_EN], enabled),
                ),
            ),
        )
    }
}

/// The first thing that is wrong from the vCPU `i` on.
pub open spec fn pv_error(
    msrs: Seq<BTreeMap<u32, u64>>,
    expected: Seq<bool>,
    i: int,
) -> Option<PvStateError>
    decreases msrs.len() - i,
{
    if i < 0 || i >= msrs.len() {
        None
    } else {
        or_else(
            vcpu_error(i as usize, msrs[i]@, expected[i]),
            pv_error(msrs, expected, i + 1),
        )
    }
}

fn check_feature(vcpu: usize, index: u32, value: u64, enabled: bool) -> (r: Result<
    (),
    PvStateError,
>)
    ensures
        r == (match feature_error(vcpu, index, value, enabled) {
            Some(e) => Err(e),
            None => Ok(()),
        }),
{
    if enabled && value % 2 != 1 {
        Err(PvStateError::Disabled { vcpu, index })
    } else if !enabled && value != 0 {
        Err(PvStateError::Enabled { vcpu, index })
    } else {
        Ok(())
    }
}

fn msr(values: &BTreeMap<u32, u64>, vcpu: usize, index: u32) -> (r: Result<u64, PvStateError>)
    ensures
        match omission(vcpu, values@, index) {
            Some(e) => r == Err::<u64, PvStateError>(e),
            None => r == Ok::<u64, PvStateError>(values@[index]),
        },
{
    broadcast use vstd::std_specs::btree::group_btree_axioms;

    match values.get(&index) {
        Some(v) => Ok(*v),
        None => Err(PvStateError::Omitted { vcpu, index }),
    }
}

fn check_vcpu(vcpu: usize, values: &BTreeMap<u32, u64>, enabled: bool) -> (r: Result<
    (),
    PvStateError,
>)
    ensures
        r == (match vcpu_error(vcpu, values@, enabled) {
            Some(e) => Err(e),
            None => Ok(()),
        }),
{
    let system_time: u64 = match msr(values, vcpu, MSR_KVM_SYSTEM_TIME_NEW) {
        Ok(v) => v,
        Err(e) => {
            return Err(e);
        },
    };
    let async_pf: u64 = match msr(values, vcpu, MSR_KVM_ASYNC_PF_EN) {
        Ok(v) => v,
        Err(e) => {
            return Err(e);
        },
    };
    let steal_time: u64 = match msr(values, vcpu, MSR_KVM_STEAL_TIME) {
        Ok(v) => v,
        Err(e) => {
            return Err(e);
        },
    };
    let pv_eoi: u64 = match msr(values, vcpu, MSR_KVM_PV_EOI_EN) {
        Ok(v) => v,
        Err(e) => {
            return Err(e);
        },
    };
    let vector: u64 = match msr(values, vcpu, MSR_KVM_ASYNC_PF_INT) {
        Ok(v) => v,
        Err(e) => {
            return Err(e);
        },
    };
    if vector % 0x100 < 0x20 {
        return Err(PvStateError::BadVector { vcpu });
    }
    match check_feature(vcpu, MSR_KVM_SYSTEM_TIME_NEW, system_time, enabled) {
        Ok(()) => {},
        Err(e) => {
            return Err(e);
        },
    }
    match check_feature(vcpu, MSR_KVM_ASYNC_PF_EN, async_pf, enabled) {
        Ok(()) => {},
        Err(e) => {
            return Err(e);
        },
    }
    match check_feature(vcpu, MSR_KVM_STEAL_TIME, steal_time, enabled) {
        Ok(()) => {},
        Err(e) => {
            return Err(e);
        },
    }
    check_feature(vcpu, MSR_KVM_PV_EOI_EN, pv_eoi, enabled)
}

/// Checks the MSRs of a boot processor and one other: which paravirtual features are on.
pub fn assert_pv_state(msrs: &[BTreeMap<u32, u64>], expected_enabled: &[bool]) -> (r: Result<
    (),
    PvStateError,
>)
    ensures
        r == (if msrs@.len() != 2 || expected_enabled@.len() != 2 {
            Err(PvStateError::WrongCount)
        } else {
            match pv_error(msrs@, expected_enabled@, 0) {
                Some(e) => Err(e),
                None => Ok(()),
            }
        }),
{
    if msrs.len() != 2 || expected_enabled.len() != 2 {
        return Err(PvStateError::WrongCount);
    }
    let mut i: usize = 0;
    while i < msrs.len()
        invariant
            i <= msrs@.len(),
            msrs@.len() == 2,
            expected_enabled@.len() == 2,
            pv_error(msrs@, expected_enabled@, 0) == pv_error(
                msrs@,
                expected_enabled@,
                i as int,
            ),
        decreases msrs@.len() - i,
    {
        match check_vcpu(i, &msrs[i], expected_enabled[i]) {
            Ok(()) => {},
            Err(e) => {
                return Err(e);
            },
        }
        i += 1;
    }
    Ok(())
}

} // verus!
