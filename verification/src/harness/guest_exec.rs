//! Running a command in a guest that may still be booting.
use vstd::prelude::*;

verus! {

/// How long a guest may take until it runs commands.
pub const READY_WITHIN_MS: u64 = 90_000;

/// Why a command counts as failed.
#[derive(Debug, Copy, Clone, PartialEq, Eq, Structural)]
pub enum GuestExecError {
    /// The command ended with another code than zero.
    NonZeroExit(i32),
    /// The output holds no expected marker.
    NoMarker,
    /// The guest did not run the command in time.
    NotReady,
}

/// What follows on an attempt to run a command.
#[derive(Debug, Copy, Clone, PartialEq, Eq, Structural)]
pub enum GuestExecStep {
    /// The command did what was expected.
    Done,
    /// The guest does not run commands yet: try again.
    Retry,
    /// The command failed.
    Failed(GuestExecError),
}

/// `marker` stands at offset `i` of `s`.
pub open spec fn stands_at(s: Seq<u8>, marker: Seq<u8>, i: int) -> bool {
    0 <= i && i + marker.len() <= s.len() && s.subrange(i, i + marker.len()) == marker
}

/// `marker` stands somewhere in `s`.
pub open spec fn holds(s: Seq<u8>, marker: Seq<u8>) -> bool {
    exists|i: int| stands_at(s, marker, i)
}

fn marker_at(s: &[u8], marker: &[u8], i: usize) -> (r: bool)
    requires
        i + marker@.len() <= s@.len(),
    ensures
        r == stands_at(s@, marker@, i as int),
{
    let ghost there = s@.subrange(i as int, i + marker@.len());
    let len: usize = s.len();
    let mut k: usize = 0;
    while k < marker.len()
        invariant
            k <= marker@.len(),
            i + marker@.len() <= s@.len(),
            len == s@.len(),
            there == s@.subrange(i as int, i + marker@.len()),
            forall|j: int| 0 <= j < k ==> there[j] == marker@[j],
        decreases marker@.len() - k,
    {
        if s[i + k] != marker[k] {
            assert(there[k as int] != marker@[k as int]);
            return false;
        }
        k += 1;
    }
    assert(there =~= marker@);
    true
}

/// Whether `marker` stands somewhere in `s`.
pub fn contains_marker(s: &[u8], marker: &[u8]) -> (r: bool)
    ensures
        r == holds(s@, marker@),
{
    if marker.len() > s.len() {
        return false;
    }
    let last: usize = s.len() - marker.len();
    let mut i: usize = 0;
    loop
        invariant
            i <= last,
            last == s@.len() - marker@.len(),
            forall|j: int| 0 <= j < i ==> !stands_at(s@, marker@, j),
        decreases last - i,
    {
        if marker_at(s, marker, i) {
            return true;
        }
        if i == last {
            return false;
        }
        i += 1;
    }
}

/// What follows on an attempt to run a command: `reply` is the exit code and the output, or `None`
/// where the guest could not be reached `elapsed_ms` after the first attempt.
pub fn assert_guest_exec(reply: Option<(i32, &[u8])>, expected: &[u8], elapsed_ms: u64) -> (s:
    GuestExecStep)
    ensures
        s == (match reply {
            Some((code, output)) => if code != 0 {
                GuestExecStep::Failed(GuestExecError::NonZeroExit(code))
            } else if !holds(output@, expected@) {
                GuestExecStep::Failed(GuestExecError::NoMarker)
            } else {
                GuestExecStep::Done
            },
            None => if elapsed_ms < READY_WITHIN_MS {
                GuestExecStep::Retry
            } else {
                GuestExecStep::Failed(GuestExecError::NotReady)
            },
        }),
{
    match reply {
        Some((code, output)) => {
            if code != 0 {
                GuestExecStep::Failed(GuestExecError::NonZeroExit(code))
            } else if !contains_marker(output, expected) {
                GuestExecStep::Failed(GuestExecError::NoMarker)
            } else {
                GuestExecStep::Done
            }
        },
        None => {
            if elapsed_ms < READY_WITHIN_MS {
                GuestExecStep::Retry
            } else {
                GuestExecStep::Failed(GuestExecError::NotReady)
            }
        },
    }
}

} // verus!
