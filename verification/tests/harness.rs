use std::collections::BTreeMap;
use vmm_devices::harness::ethernet::ethernet_frame;
use vmm_devices::harness::exec_frame::{
    decode_frame, encode_frame, payload_len, request_id_and_command, REQUEST, STDOUT,
};
use vmm_devices::harness::guest_exec::{
    assert_guest_exec, contains_marker, GuestExecError, GuestExecStep,
};
use vmm_devices::harness::probe::{ProbeResult, StatusFlag};
use vmm_devices::harness::pv_state::{
    assert_pv_state, PvStateError, MSR_KVM_ASYNC_PF_EN, MSR_KVM_ASYNC_PF_INT, MSR_KVM_PV_EOI_EN,
    MSR_KVM_STEAL_TIME, MSR_KVM_SYSTEM_TIME_NEW,
};
use vmm_devices::harness::snapshot_file::{state_range, SnapshotFileError};
use vmm_devices::harness::ruleset::{assert_ruleset, split_lines, RulesetFault};

#[test]
fn short_frames_are_padded() {
    let f = ethernet_frame([1; 6], [2; 6], b"magic");
    assert_eq!(f.len(), 60);
    assert_eq!(&f[..6], &[1; 6]);
    assert_eq!(&f[6..12], &[2; 6]);
    assert_eq!(&f[12..14], &[0x08, 0x00]);
    assert_eq!(&f[14..19], b"magic");
    assert!(f[19..].iter().all(|b| *b == 0));
    assert_eq!(ethernet_frame([1; 6], [2; 6], &[7; 100]).len(), 114);
}

#[test]
fn a_frame_is_read_back() {
    let mut bytes = encode_frame(STDOUT, b"hello");
    assert_eq!(
        bytes,
        [b"VEX2".as_slice(), &[2, STDOUT, 0, 0, 0, 5], b"hello"].concat()
    );
    assert_eq!(payload_len(&bytes), Some(5));
    bytes.extend_from_slice(b"next");
    assert_eq!(decode_frame(&bytes), Some((STDOUT, b"hello".to_vec())));
    assert_eq!(decode_frame(&bytes[..14]), None);
    bytes[4] = 1;
    assert_eq!(payload_len(&bytes), None);
    assert_eq!(payload_len(b"VEX2"), None);
}

#[test]
fn a_request_holds_its_number_and_command() {
    let mut payload = Vec::new();
    payload.extend_from_slice(&0x0102_0304_0506_0708u64.to_be_bytes());
    payload.extend_from_slice(&4u32.to_be_bytes());
    payload.extend_from_slice(b"true");
    let bytes = encode_frame(REQUEST, &payload);
    let (kind, got) = decode_frame(&bytes).unwrap();
    assert_eq!(kind, REQUEST);
    assert_eq!(
        request_id_and_command(&got),
        Some((0x0102_0304_0506_0708, b"true".to_vec()))
    );
    assert_eq!(request_id_and_command(&got[..15]), None);
    assert_eq!(request_id_and_command(&got[..11]), None);
}

#[test]
fn a_status_is_summed_up_by_its_flags() {
    let probe = ProbeResult {
        status_writes: 4,
        notify_count: 1,
        final_status: 0x0f,
        activated: true,
        elapsed_ms: 3,
    };
    let names: Vec<&str> = probe.flags().into_iter().map(StatusFlag::name).collect();
    assert_eq!(names, ["ACK", "DRIVER", "FEATURES_OK", "DRIVER_OK"]);
    let failed = ProbeResult {
        final_status: 0x81,
        ..probe
    };
    assert_eq!(
        failed.flags(),
        vec![StatusFlag::Acknowledge, StatusFlag::Failed]
    );
}

fn msrs(on: u64) -> BTreeMap<u32, u64> {
    BTreeMap::from([
        (MSR_KVM_SYSTEM_TIME_NEW, on),
        (MSR_KVM_ASYNC_PF_EN, on),
        (MSR_KVM_STEAL_TIME, on),
        (MSR_KVM_PV_EOI_EN, on),
        (MSR_KVM_ASYNC_PF_INT, 0xf3),
    ])
}

#[test]
fn pv_state_of_two_vcpus() {
    assert_eq!(
        assert_pv_state(&[msrs(0x1001), msrs(0)], &[true, false]),
        Ok(())
    );
    assert_eq!(
        assert_pv_state(&[msrs(1)], &[true]),
        Err(PvStateError::WrongCount)
    );
    let mut missing = msrs(1);
    missing.remove(&MSR_KVM_STEAL_TIME);
    assert_eq!(
        assert_pv_state(&[msrs(1), missing], &[true, true]),
        Err(PvStateError::Omitted {
            vcpu: 1,
            index: MSR_KVM_STEAL_TIME
        })
    );
    let mut vector = msrs(1);
    vector.insert(MSR_KVM_ASYNC_PF_INT, 0x11f);
    assert_eq!(
        assert_pv_state(&[vector, msrs(1)], &[true, true]),
        Err(PvStateError::BadVector { vcpu: 0 })
    );
    assert_eq!(
        assert_pv_state(&[msrs(2), msrs(1)], &[true, true]),
        Err(PvStateError::Disabled {
            vcpu: 0,
            index: MSR_KVM_SYSTEM_TIME_NEW
        })
    );
    let mut on = msrs(0);
    on.insert(MSR_KVM_PV_EOI_EN, 4);
    assert_eq!(
        assert_pv_state(&[msrs(1), on], &[true, false]),
        Err(PvStateError::Enabled {
            vcpu: 1,
            index: MSR_KVM_PV_EOI_EN
        })
    );
}

#[test]
fn the_state_of_a_snapshot_file_is_found() {
    let mut file = vec![0u8; 100];
    file[..4].copy_from_slice(b"VMSN");
    file[8..16].copy_from_slice(&60u64.to_le_bytes());
    assert_eq!(state_range(&file), Ok((32, 92)));
    file[8..16].copy_from_slice(&69u64.to_le_bytes());
    assert_eq!(state_range(&file), Err(SnapshotFileError::StateTooLong));
    file[8..16].copy_from_slice(&u64::MAX.to_le_bytes());
    assert_eq!(state_range(&file), Err(SnapshotFileError::LengthOverflow));
    assert_eq!(
        state_range(&file[..31]),
        Err(SnapshotFileError::ShortHeader)
    );
    file[0] = b'X';
    assert_eq!(state_range(&file), Err(SnapshotFileError::BadMagic));
}

#[test]
fn commands_are_tried_until_the_guest_is_ready() {
    assert_eq!(
        assert_guest_exec(None, b"ok", 89_999),
        GuestExecStep::Retry
    );
    assert_eq!(
        assert_guest_exec(None, b"ok", 90_000),
        GuestExecStep::Failed(GuestExecError::NotReady)
    );
    assert_eq!(
        assert_guest_exec(Some((0, b"all ok here")), b"ok", 1),
        GuestExecStep::Done
    );
    assert_eq!(
        assert_guest_exec(Some((0, b"nothing")), b"ok", 1),
        GuestExecStep::Failed(GuestExecError::NoMarker)
    );
    assert_eq!(
        assert_guest_exec(Some((2, b"ok")), b"ok", 1),
        GuestExecStep::Failed(GuestExecError::NonZeroExit(2))
    );
    assert!(contains_marker(b"abc", b""));
    assert!(contains_marker(b"abc", b"bc"));
    assert!(!contains_marker(b"bc", b"abc"));
}

const RULES: &str = "table inet vmm {\n\tchain vmm_egress_a {\n\t\tct state established,related accept\n\t\tip daddr 198.51.100.10 tcp dport 443 accept\n\t}\n\tchain forward {\n\t\ttype filter hook forward priority 0; policy drop;\n\t}\n}\n";

fn ruleset_check(rules: &str) -> Result<(), RulesetFault> {
    assert_ruleset(
        rules.as_bytes(),
        b"vmm_egress_a",
        b"198.51.100.10",
        b"203.0.113.10",
    )
}

#[test]
fn a_ruleset_that_isolates_the_guest_passes() {
    assert_eq!(ruleset_check(RULES), Ok(()));
}

#[test]
fn each_fault_of_a_ruleset_is_named() {
    assert_eq!(
        ruleset_check(&RULES.replace("vmm_egress_a", "vmm_egress_b")),
        Err(RulesetFault::ChainMissing)
    );
    assert_eq!(
        ruleset_check(&RULES.replace("policy drop", "policy accept")),
        Err(RulesetFault::ForwardDropMissing)
    );
    assert_eq!(
        ruleset_check(&RULES.replace("hook forward", "hook input")),
        Err(RulesetFault::ForwardDropMissing)
    );
    assert_eq!(
        ruleset_check(&RULES.replace("established,related", "established")),
        Err(RulesetFault::EstablishedMissing)
    );
    assert_eq!(
        ruleset_check(&RULES.replace("dport 443", "dport 80")),
        Err(RulesetFault::AllowMissing)
    );
    let swapped = RULES
        .replace("ct state established,related accept", "X")
        .replace(
            "ip daddr 198.51.100.10 tcp dport 443 accept",
            "ct state established,related accept",
        )
        .replace("X", "ip daddr 198.51.100.10 tcp dport 443 accept");
    assert_eq!(ruleset_check(&swapped), Err(RulesetFault::AllowFirst));
    let listed = format!("{RULES}ip daddr 203.0.113.10 accept\n");
    assert_eq!(ruleset_check(&listed), Err(RulesetFault::DeniedListed));
}

#[test]
fn words_of_different_lines_make_no_rule() {
    let split = RULES.replace("tcp dport 443 accept", "tcp dport 443\n\t\taccept");
    assert_eq!(ruleset_check(&split), Err(RulesetFault::AllowMissing));
    assert_eq!(
        split_lines(b"a\n\nb"),
        vec![b"a".to_vec(), Vec::new(), b"b".to_vec()]
    );
    assert_eq!(split_lines(b""), vec![Vec::<u8>::new()]);
}

