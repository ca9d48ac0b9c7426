//! What the checks and encodings of the harness promise.
use crate::harness::ethernet;
use crate::harness::exec_frame;
use crate::harness::guest_exec::{self, GuestExecError, GuestExecStep};
use crate::harness::probe::{self, ProbeResult, StatusFlag};
use crate::harness::pv_state::{self, PvStateError};
use crate::harness::ruleset::{self, RulesetFault};
use crate::harness::snapshot_file::{self, SnapshotFileError};
use std::collections::BTreeMap;
use vstd::prelude::*;
use vstd::string::StringSliceAdditionalSpecFns;

verus! {

/// An Ethernet frame has the destination, the source, the type of IPv4 and the whole payload, and
/// zeros behind it up to 60 bytes in all.
pub proof fn law_ethernet_frame_layout(dst: [u8; 6], src: [u8; 6], payload: &[u8], f: Vec<u8>)
    requires
        call_ensures(ethernet::ethernet_frame, (dst, src, payload), f),
    ensures
        f@.len() == (if payload@.len() < 46 {
            60nat
        } else {
            14 + payload@.len()
        }),
        forall|i: int| 0 <= i < 6 ==> #[trigger] f@[i] == dst@[i],
        forall|i: int| 6 <= i < 12 ==> #[trigger] f@[i] == src@[i - 6],
        f@[12] == 8,
        f@[13] == 0,
        forall|i: int| 14 <= i < 14 + payload@.len() ==> #[trigger] f@[i] == payload@[i - 14],
        forall|i: int| 14 + payload@.len() <= i < f@.len() ==> #[trigger] f@[i] == 0,
{
}

/// The 32-bit integer at offset `i`, most significant byte first.
pub open spec fn big32(s: Seq<u8>, i: int) -> int {
    16777216 * s[i] + 65536 * s[i + 1] + 256 * s[i + 2] + s[i + 3]
}

/// The bytes start with the header of a frame: `VEX2` and version 2.
pub open spec fn has_header(s: Seq<u8>) -> bool {
    &&& s.len() >= 10
    &&& s[0] == 86
    &&& s[1] == 69
    &&& s[2] == 88
    &&& s[3] == 50
    &&& s[4] == 2
}

proof fn lemma_big32(x: int, s: Seq<u8>, i: int)
    requires
        0 <= x <= u32::MAX,
        0 <= i,
        i + 4 <= s.len(),
        s.subrange(i, i + 4) == exec_frame::be32_bytes(x),
    ensures
        big32(s, i) == x,
{
    let b = exec_frame::be32_bytes(x);
    let p = s.subrange(i, i + 4);
    assert(s[i] == p[0] && s[i + 1] == p[1] && s[i + 2] == p[2] && s[i + 3] == p[3]);
    let (d, c, a, z) = (x / 0x100_0000, (x / 0x1_0000) % 0x100, (x / 0x100) % 0x100, x % 0x100);
    assert(x == 16777216 * d + 65536 * c + 256 * a + z);
    assert(d % 0x100 == d);
}

/// A frame of the command channel has its header, its kind, the length of the payload, most
/// significant byte first, and the whole payload.
pub proof fn law_exec_frame_layout(kind: u8, payload: &[u8], v: Vec<u8>)
    requires
        payload@.len() <= u32::MAX,
        call_ensures(exec_frame::encode_frame, (kind, payload), v),
    ensures
        v@.len() == 10 + payload@.len(),
        has_header(v@),
        v@[5] == kind,
        big32(v@, 6) == payload@.len(),
        forall|i: int| 0 <= i < payload@.len() ==> v@[10 + i] == #[trigger] payload@[i],
{
    assert(v@.subrange(6, 10) =~= exec_frame::be32_bytes(payload@.len() as int));
    lemma_big32(payload@.len() as int, v@, 6);
}

/// A frame is read where there is a header and the whole payload that it announces; its kind and
/// payload are those that stand there. A header alone tells how long the payload is.
pub proof fn law_exec_frame_is_read(
    s: &[u8],
    r: Option<(u8, Vec<u8>)>,
    header: &[u8],
    len: Option<u32>,
)
    requires
        call_ensures(exec_frame::decode_frame, (s,), r),
        call_ensures(exec_frame::payload_len, (header,), len),
    ensures
        r is Some <==> has_header(s@) && s@.len() >= 10 + big32(s@, 6),
        r matches Some((kind, payload)) ==> {
            &&& kind == s@[5]
            &&& payload@.len() == big32(s@, 6)
            &&& forall|i: int| 0 <= i < payload@.len() ==> #[trigger] payload@[i] == s@[10 + i]
        },
        len is Some <==> has_header(header@),
        len matches Some(n) ==> n == big32(header@, 6),
{
    lemma_header(s@);
    lemma_header(header@);
    assert(big32(s@, 6) == exec_frame::be32_at(s@, 6));
    assert(big32(header@, 6) == exec_frame::be32_at(header@, 6));
}

proof fn lemma_header(s: Seq<u8>)
    ensures
        has_header(s) == (s.len() >= 10 && s.subrange(0, 4) == exec_frame::magic() && s[4] == 2),
{
    if s.len() >= 10 {
        let m = s.subrange(0, 4);
        assert(m[0] == s[0] && m[1] == s[1] && m[2] == s[2] && m[3] == s[3]);
        if has_header(s) {
            assert(m =~= exec_frame::magic());
        }
        if m == exec_frame::magic() {
            assert(m[0] == 86 && m[1] == 69 && m[2] == 88 && m[3] == 50);
        }
    }
}

/// A request is read where there are its number, a length and as much of a command; it is the
/// number and exactly the command that stand there.
pub proof fn law_exec_request_is_read(payload: &[u8], r: Option<(u64, Vec<u8>)>)
    requires
        call_ensures(exec_frame::request_id_and_command, (payload,), r),
    ensures
        r is Some <==> payload@.len() >= 12 && payload@.len() >= 12 + big32(payload@, 8),
        r matches Some((id, command)) ==> {
            &&& id == 4294967296 * big32(payload@, 0) + big32(payload@, 4)
            &&& command@.len() == big32(payload@, 8)
            &&& forall|i: int| 0 <= i < command@.len() ==> #[trigger] command@[i] == payload@[12 + i]
        },
{
    assert(big32(payload@, 8) == exec_frame::be32_at(payload@, 8));
    assert(big32(payload@, 0) == exec_frame::be32_at(payload@, 0));
    assert(big32(payload@, 4) == exec_frame::be32_at(payload@, 4));
}

/// The bytes of `marker` stand in `s` from offset `i` on.
pub open spec fn reads_at(s: Seq<u8>, marker: Seq<u8>, i: int) -> bool {
    &&& 0 <= i
    &&& i + marker.len() <= s.len()
    &&& forall|k: int| 0 <= k < marker.len() ==> s[i + k] == #[trigger] marker[k]
}

/// The bytes of `marker` stand one behind the other somewhere in `s`.
pub open spec fn has_part(s: Seq<u8>, marker: Seq<u8>) -> bool {
    exists|i: int| reads_at(s, marker, i)
}

proof fn lemma_has_part(s: Seq<u8>, marker: Seq<u8>)
    ensures
        guest_exec::holds(s, marker) == has_part(s, marker),
{
    if guest_exec::holds(s, marker) {
        let i = choose|i: int| guest_exec::stands_at(s, marker, i);
        let p = s.subrange(i, i + marker.len());
        assert forall|k: int| 0 <= k < marker.len() implies s[i + k] == #[trigger] marker[k] by {
            assert(p[k] == marker[k]);
        }
        assert(reads_at(s, marker, i));
    }
    if has_part(s, marker) {
        let i = choose|i: int| reads_at(s, marker, i);
        assert(s.subrange(i, i + marker.len()) =~= marker);
        assert(guest_exec::stands_at(s, marker, i));
    }
}

/// A marker is found exactly where its bytes stand one behind the other.
pub proof fn law_marker_is_found(s: &[u8], marker: &[u8], r: bool)
    requires
        call_ensures(guest_exec::contains_marker, (s, marker), r),
    ensures
        r == has_part(s@, marker@),
{
    lemma_has_part(s@, marker@);
}

/// A command is done exactly where it ended with zero and its output has the marker. It is tried
/// again exactly where the guest was not reached within 90 seconds. A code that is not zero is
/// told before a missing marker.
pub proof fn law_guest_exec_is_judged(
    reply: Option<(i32, &[u8])>,
    expected: &[u8],
    elapsed_ms: u64,
    s: GuestExecStep,
)
    requires
        call_ensures(guest_exec::assert_guest_exec, (reply, expected, elapsed_ms), s),
    ensures
        s == GuestExecStep::Done <==> (reply matches Some((code, output)) && code == 0 && has_part(
            output@,
            expected@,
        )),
        s == GuestExecStep::Retry <==> reply is None && elapsed_ms < 90000,
        s == GuestExecStep::Failed(GuestExecError::NotReady) <==> reply is None && elapsed_ms
            >= 90000,
        s == GuestExecStep::Failed(GuestExecError::NoMarker) <==> (reply matches Some(
            (code, output),
        ) && code == 0 && !has_part(output@, expected@)),
        reply matches Some((code, output)) ==> (code != 0 <==> s == GuestExecStep::Failed(
            GuestExecError::NonZeroExit(code),
        )),
{
    if let Some((code, output)) = reply {
        lemma_has_part(output@, expected@);
    }
}

/// The bit of a status that a flag stands for.
pub open spec fn mask(f: StatusFlag) -> u32 {
    match f {
        StatusFlag::Acknowledge => 1,
        StatusFlag::Driver => 2,
        StatusFlag::FeaturesOk => 8,
        StatusFlag::DriverOk => 4,
        StatusFlag::Failed => 128,
    }
}

/// The place of a flag in a summary.
pub open spec fn rank(f: StatusFlag) -> int {
    match f {
        StatusFlag::Acknowledge => 0,
        StatusFlag::Driver => 1,
        StatusFlag::FeaturesOk => 2,
        StatusFlag::DriverOk => 3,
        StatusFlag::Failed => 4,
    }
}

/// A summary lists exactly the flags whose bits the status has, each once, in the order of the
/// handshake.
pub proof fn law_summary_lists_the_flags(p: &ProbeResult, v: Vec<StatusFlag>)
    requires
        call_ensures(ProbeResult::flags, (p,), v),
    ensures
        forall|f: StatusFlag| #[trigger] v@.contains(f) <==> p.final_status & mask(f) != 0,
        forall|i: int, j: int|
            0 <= i < j < v@.len() ==> rank(#[trigger] v@[i]) < rank(#[trigger] v@[j]),
{
    let status = p.final_status;
    let a = probe::with_flag(Seq::empty(), status, StatusFlag::Acknowledge);
    let b = probe::with_flag(a, status, StatusFlag::Driver);
    let c = probe::with_flag(b, status, StatusFlag::FeaturesOk);
    let d = probe::with_flag(c, status, StatusFlag::DriverOk);
    let e = probe::with_flag(d, status, StatusFlag::Failed);
    lemma_with_flag(Seq::empty(), status, StatusFlag::Acknowledge);
    lemma_with_flag(a, status, StatusFlag::Driver);
    lemma_with_flag(b, status, StatusFlag::FeaturesOk);
    lemma_with_flag(c, status, StatusFlag::DriverOk);
    lemma_with_flag(d, status, StatusFlag::Failed);
    assert(e == probe::status_flags(status));
}

/// Flags in order, all of them of the status and in front of `n`.
spec fn in_order(s: Seq<StatusFlag>, status: u32, n: int) -> bool {
    &&& forall|f: StatusFlag| #[trigger] s.contains(f) <==> status & mask(f) != 0 && rank(f) < n
    &&& forall|i: int, j: int|
        0 <= i < j < s.len() ==> rank(#[trigger] s[i]) < rank(#[trigger] s[j])
}

proof fn lemma_with_flag(s: Seq<StatusFlag>, status: u32, f: StatusFlag)
    requires
        in_order(s, status, rank(f)),
    ensures
        in_order(probe::with_flag(s, status, f), status, rank(f) + 1),
{
    let t = probe::with_flag(s, status, f);
    assert forall|g: StatusFlag| #[trigger] t.contains(g) <==> status & mask(g) != 0 && rank(g)
        < rank(f) + 1 by {
        if t.contains(g) {
            let i = choose|i: int| 0 <= i < t.len() && t[i] == g;
            if i < s.len() {
                assert(s[i] == g);
                assert(s.contains(g));
            }
        }
        if status & mask(g) != 0 && rank(g) < rank(f) + 1 {
            if g == f {
                assert(t[t.len() - 1] == f);
            } else {
                assert(s.contains(g));
                let i = choose|i: int| 0 <= i < s.len() && s[i] == g;
                assert(t[i] == g);
            }
        }
    }
    assert forall|i: int, j: int| 0 <= i < j < t.len() implies rank(#[trigger] t[i]) < rank(
        #[trigger] t[j],
    ) by {
        if j == s.len() {
            assert(s.contains(s[i]));
        }
    }
}

/// A vCPU whose paravirtual features are as they must be: all five registers were saved, the
/// vector for page faults is none of the first 32, and each feature is on, or is zero.
pub open spec fn is_in_order(values: Map<u32, u64>, enabled: bool) -> bool {
    &&& values.dom().contains(0x4b56_4d01)
    &&& values.dom().contains(0x4b56_4d02)
    &&& values.dom().contains(0x4b56_4d03)
    &&& values.dom().contains(0x4b56_4d04)
    &&& values.dom().contains(0x4b56_4d06)
    &&& values[0x4b56_4d06] % 256 >= 32
    &&& feature_is(values[0x4b56_4d01], enabled)
    &&& feature_is(values[0x4b56_4d02], enabled)
    &&& feature_is(values[0x4b56_4d03], enabled)
    &&& feature_is(values[0x4b56_4d04], enabled)
}

/// A feature is on where its lowest bit is set, and off where nothing is.
pub open spec fn feature_is(value: u64, enabled: bool) -> bool {
    if enabled {
        value % 2 == 1
    } else {
        value == 0
    }
}

/// What a complaint about the registers says is so.
pub open spec fn complaint_holds(
    msrs: Seq<BTreeMap<u32, u64>>,
    expected: Seq<bool>,
    e: PvStateError,
) -> bool {
    match e {
        PvStateError::WrongCount => msrs.len() != 2 || expected.len() != 2,
        PvStateError::Omitted { vcpu, index } => vcpu < 2 && !msrs[vcpu as int]@.dom().contains(
            index,
        ) && (0x4b56_4d01 <= index <= 0x4b56_4d04 || index == 0x4b56_4d06),
        PvStateError::BadVector { vcpu } => vcpu < 2 && msrs[vcpu as int]@[0x4b56_4d06] % 256 < 32,
        PvStateError::Disabled { vcpu, index } => vcpu < 2 && expected[vcpu as int]
            && 0x4b56_4d01 <= index <= 0x4b56_4d04 && msrs[vcpu as int]@[index] % 2 == 0,
        PvStateError::Enabled { vcpu, index } => vcpu < 2 && !expected[vcpu as int]
            && 0x4b56_4d01 <= index <= 0x4b56_4d04 && msrs[vcpu as int]@[index] != 0,
    }
}

/// The registers pass exactly where there are two vCPUs and each is in order, and a complaint is
/// true.
pub proof fn law_pv_state_is_judged(
    msrs: &[BTreeMap<u32, u64>],
    expected: &[bool],
    r: Result<(), PvStateError>,
)
    requires
        call_ensures(pv_state::assert_pv_state, (msrs, expected), r),
    ensures
        r is Ok <==> msrs@.len() == 2 && expected@.len() == 2 && is_in_order(
            msrs@[0]@,
            expected@[0],
        ) && is_in_order(msrs@[1]@, expected@[1]),
        r matches Err(e) ==> complaint_holds(msrs@, expected@, e),
{
    reveal_with_fuel(pv_state::pv_error, 3);
}

/// The lines of a text put together again, with a line feed between each two.
pub open spec fn joined(l: Seq<Seq<u8>>) -> Seq<u8>
    decreases l.len(),
{
    if l.len() == 0 {
        Seq::empty()
    } else if l.len() == 1 {
        l[0]
    } else {
        joined(l.drop_last()) + seq![10u8] + l.last()
    }
}

/// Lines are what stands between line feeds: none has one, and put together they are the text.
pub proof fn law_lines_make_up_the_text(s: Seq<u8>)
    ensures
        ruleset::lines(s).len() > 0,
        joined(ruleset::lines(s)) == s,
        forall|i: int| 0 <= i < ruleset::lines(s).len() ==> !(#[trigger] ruleset::lines(s)[i]).contains(10),
    decreases s.len(),
{
    let l = ruleset::lines(s);
    if s.len() > 0 {
        let front = s.drop_last();
        let before = ruleset::lines(front);
        law_lines_make_up_the_text(front);
        if s.last() == 10 {
            assert(l.drop_last() =~= before);
            assert(joined(before) + seq![10u8] + Seq::<u8>::empty() =~= s);
            assert forall|i: int| 0 <= i < l.len() implies !(#[trigger] l[i]).contains(10) by {
                if i < before.len() {
                    assert(l[i] == before[i]);
                }
            }
        } else {
            assert(l.drop_last() =~= before.drop_last());
            let last = before.last().push(s.last());
            assert(l.last() == last);
            assert forall|i: int| 0 <= i < l.len() implies !(#[trigger] l[i]).contains(10) by {
                if i < l.len() - 1 {
                    assert(l[i] == before[i]);
                } else {
                    assert(!before[before.len() - 1].contains(10));
                    if last.contains(10) {
                        let k = choose|k: int| 0 <= k < last.len() && last[k] == 10;
                        assert(before.last()[k] == 10);
                        assert(before.last().contains(10));
                    }
                }
            }
            if before.len() == 1 {
                assert(joined(l) =~= s);
            } else {
                let most = joined(before.drop_last());
                assert(joined(before) == most + seq![10u8] + before.last());
                assert(l.len() == before.len());
                assert(joined(l) == most + seq![10u8] + last);
                assert(most + seq![10u8] + last =~= (most + seq![10u8] + before.last()).push(
                    s.last(),
                ));
                assert(front.push(s.last()) =~= s);
            }
        }
    } else {
        assert(joined(l) =~= s);
    }
}

/// The line lets traffic of connections that there are already through.
pub open spec fn lets_established(line: Seq<u8>) -> bool {
    &&& has_part(line, "ct state".spec_bytes())
    &&& has_part(line, "established".spec_bytes())
    &&& has_part(line, "related".spec_bytes())
    &&& has_part(line, "accept".spec_bytes())
}

/// The line lets HTTPS traffic to `dest` through.
pub open spec fn lets_to(line: Seq<u8>, dest: Seq<u8>) -> bool {
    &&& has_part(line, dest)
    &&& has_part(line, "tcp dport 443".spec_bytes())
    &&& has_part(line, "accept".spec_bytes())
}

/// Some line lets established traffic through, and no line in front of it, nor that line, lets
/// traffic to `dest` through.
pub open spec fn established_first(l: Seq<Seq<u8>>, dest: Seq<u8>) -> bool {
    exists|i: int|
        {
            &&& 0 <= i < l.len()
            &&& lets_established(#[trigger] l[i])
            &&& forall|j: int| 0 <= j <= i ==> !lets_to(#[trigger] l[j], dest)
        }
}

/// A ruleset passes exactly where the guest's chain is there, forwarding drops by default,
/// established traffic is let through first, then traffic to the allowed destination, and the
/// denied destination does not occur.
pub proof fn law_ruleset_is_judged(
    rules: &[u8],
    chain: &[u8],
    allowed: &[u8],
    denied: &[u8],
    r: Result<(), RulesetFault>,
)
    requires
        call_ensures(ruleset::assert_ruleset, (rules, chain, allowed, denied), r),
    ensures
        r is Ok <==> {
            let l = ruleset::lines(rules@);
            &&& has_part(rules@, "chain ".spec_bytes() + chain@)
            &&& has_part(rules@, "hook forward".spec_bytes())
            &&& has_part(rules@, "policy drop".spec_bytes())
            &&& established_first(l, allowed@)
            &&& exists|i: int| 0 <= i < l.len() && lets_to(#[trigger] l[i], allowed@)
            &&& !has_part(rules@, denied@)
        },
{
    let l = ruleset::lines(rules@);
    let pe = ruleset::accepts_established();
    let pa = ruleset::accepts(allowed@);
    lemma_has_part(rules@, "chain ".spec_bytes() + chain@);
    lemma_has_part(rules@, "hook forward".spec_bytes());
    lemma_has_part(rules@, "policy drop".spec_bytes());
    lemma_has_part(rules@, denied@);
    assert forall|line: Seq<u8>| #[trigger] pe(line) == lets_established(line) by {
        lemma_has_part(line, "ct state".spec_bytes());
        lemma_has_part(line, "established".spec_bytes());
        lemma_has_part(line, "related".spec_bytes());
        lemma_has_part(line, "accept".spec_bytes());
    }
    assert forall|line: Seq<u8>| #[trigger] pa(line) == lets_to(line, allowed@) by {
        lemma_has_part(line, allowed@);
        lemma_has_part(line, "tcp dport 443".spec_bytes());
        lemma_has_part(line, "accept".spec_bytes());
    }
    lemma_first(l, pe);
    lemma_first(l, pa);
    let e = ruleset::first_line(l, pe);
    let a = ruleset::first_line(l, pa);
    if ruleset::has_line(l, pe) && ruleset::has_line(l, pa) {
        assert(ruleset::is_first(l, pe, e) && ruleset::is_first(l, pa, a));
        if e < a {
            assert forall|j: int| 0 <= j <= e implies !lets_to(#[trigger] l[j], allowed@) by {
                assert(!pa(l[j]));
            }
            assert(pe(l[e]));
            assert(lets_established(l[e]));
            assert(established_first(l, allowed@));
            assert(pa(l[a]));
            assert(lets_to(l[a], allowed@));
        } else if established_first(l, allowed@) {
            let i = choose|i: int|
                {
                    &&& 0 <= i < l.len()
                    &&& lets_established(#[trigger] l[i])
                    &&& forall|j: int| 0 <= j <= i ==> !lets_to(#[trigger] l[j], allowed@)
                };
            assert(pe(l[i]));
            assert(pa(l[a]));
            assert(lets_to(l[a], allowed@));
            assert(i < a);
            assert(i < e);
            assert(false);
        }
    } else {
        if established_first(l, allowed@) {
            let i = choose|i: int|
                {
                    &&& 0 <= i < l.len()
                    &&& lets_established(#[trigger] l[i])
                    &&& forall|j: int| 0 <= j <= i ==> !lets_to(#[trigger] l[j], allowed@)
                };
            assert(pe(l[i]));
        }
        if exists|i: int| 0 <= i < l.len() && lets_to(#[trigger] l[i], allowed@) {
            let i = choose|i: int| 0 <= i < l.len() && lets_to(#[trigger] l[i], allowed@);
            assert(pa(l[i]));
        }
    }
}

/// Where a line has a property, there is a first one that has it.
proof fn lemma_first(l: Seq<Seq<u8>>, p: spec_fn(Seq<u8>) -> bool)
    ensures
        ruleset::has_line(l, p) <==> exists|i: int| 0 <= i < l.len() && p(#[trigger] l[i]),
{
    if exists|i: int| 0 <= i < l.len() && p(#[trigger] l[i]) {
        let i = choose|i: int| 0 <= i < l.len() && p(#[trigger] l[i]);
        lemma_first_from(l, p, i);
    }
}

proof fn lemma_first_from(l: Seq<Seq<u8>>, p: spec_fn(Seq<u8>) -> bool, i: int)
    requires
        0 <= i < l.len(),
        p(l[i]),
    ensures
        ruleset::has_line(l, p),
    decreases i,
{
    if exists|j: int| 0 <= j < i && p(#[trigger] l[j]) {
        let j = choose|j: int| 0 <= j < i && p(#[trigger] l[j]);
        lemma_first_from(l, p, j);
    } else {
        assert(ruleset::is_first(l, p, i));
    }
}

/// The state in a snapshot file starts behind 32 bytes of header and is as long as the 64-bit
/// integer at offset 8 says. It is found exactly where the file has a header that starts with
/// `VMSN` and as many bytes behind it; each complaint is true.
pub proof fn law_snapshot_state_is_found(s: &[u8], r: Result<(usize, usize), SnapshotFileError>)
    requires
        call_ensures(snapshot_file::state_range, (s,), r),
    ensures
        ({
            let len = s@[8] + 0x100 * s@[9] + 0x1_0000 * s@[10] + 0x100_0000 * s@[11]
                + 0x1_0000_0000 * (s@[12] + 0x100 * s@[13] + 0x1_0000 * s@[14] + 0x100_0000
                * s@[15]);
            let magic = s@[0] == 86 && s@[1] == 77 && s@[2] == 83 && s@[3] == 78;
            &&& r is Ok <==> s@.len() >= 32 && magic && 32 + len <= s@.len()
            &&& r matches Ok((from, to)) ==> from == 32 && to == 32 + len
            &&& r == Err::<(usize, usize), SnapshotFileError>(SnapshotFileError::ShortHeader)
                <==> s@.len() < 32
            &&& r == Err::<(usize, usize), SnapshotFileError>(SnapshotFileError::BadMagic)
                <==> s@.len() >= 32 && !magic
            &&& r == Err::<(usize, usize), SnapshotFileError>(SnapshotFileError::LengthOverflow)
                <==> s@.len() >= 32 && magic && 32 + len > u64::MAX
        }),
{
    assert(s.len() == s@.len());
}

} // verus!
