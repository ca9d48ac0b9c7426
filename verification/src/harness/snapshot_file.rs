//! The layout of a full snapshot file: a header, the device state, and guest memory.
use crate::bytes::{self, read_le64};
use vstd::prelude::*;

verus! {

pub const FULL_HEADER_LEN: usize = 32;

/// Why a snapshot file has no readable state.
#[derive(Debug, Copy, Clone, PartialEq, Eq, Structural)]
pub enum SnapshotFileError {
    /// The file is shorter than its header.
    ShortHeader,
    /// The file does not start with the magic of a snapshot.
    BadMagic,
    /// The length of the state does not fit.
    LengthOverflow,
    /// The state goes beyond the end of the file.
    StateTooLong,
}

/// The file starts with the magic of a snapshot.
pub open spec fn has_magic(s: Seq<u8>) -> bool {
    s[0] == 0x56 && s[1] == 0x4d && s[2] == 0x53 && s[3] == 0x4e
}

/// Where the state ends, or why it cannot be read. It starts behind the header.
pub open spec fn state_end(s: Seq<u8>) -> Result<int, SnapshotFileError> {
    let end = 32 + bytes::le64_at(s, 8);
    if s.len() < 32 {
        Err(SnapshotFileError::ShortHeader)
    } else if !has_magic(s) {
        Err(SnapshotFileError::BadMagic)
    } else if end > u64::MAX {
        Err(SnapshotFileError::LengthOverflow)
    } else if end > s.len() {
        Err(SnapshotFileError::StateTooLong)
    } else {
        Ok(end)
    }
}

/// Finds the state in a snapshot file: the offsets where it starts and ends.
pub fn state_range(s: &[u8]) -> (r: Result<(usize, usize), SnapshotFileError>)
    ensures
        match state_end(s@) {
            Ok(end) => r == Ok::<(usize, usize), SnapshotFileError>((32usize, end as usize)) && end
                <= s@.len(),
            Err(e) => r == Err::<(usize, usize), SnapshotFileError>(e),
        },
{
    if s.len() < FULL_HEADER_LEN {
        return Err(SnapshotFileError::ShortHeader);
    }
    if !(s[0] == 0x56 && s[1] == 0x4d && s[2] == 0x53 && s[3] == 0x4e) {
        return Err(SnapshotFileError::BadMagic);
    }
    let state_len: u64 = read_le64(s, 8);
    let end: u64 = match (FULL_HEADER_LEN as u64).checked_add(state_len) {
        Some(end) => end,
        None => {
            return Err(SnapshotFileError::LengthOverflow);
        },
    };
    if end > s.len() as u64 {
        return Err(SnapshotFileError::StateTooLong);
    }
    Ok((FULL_HEADER_LEN, end as usize))
}

} // verus!
