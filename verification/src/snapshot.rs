//! The snapshot format in which a ready-made index is distributed: a
//! version tag of four bytes, most significant first, and then the
//! payload. A snapshot with another version is not to be trusted.

use vstd::prelude::*;
use vstd::slice::slice_subrange;

verus! {

/// Length of the version tag in bytes.
pub const TAG_BYTES: usize = 4;

/// Why a snapshot is refused.
#[derive(Debug, Clone, Copy, PartialEq, Eq, Structural)]
pub enum SnapshotError {
    /// The snapshot is too short to hold a tag, or its tag is not the
    /// expected one; the snapshot has to be acquired again.
    VersionMismatch,
}

/// The number that four bytes stand for, most significant byte first.
pub open spec fn be_u32(b0: u8, b1: u8, b2: u8, b3: u8) -> int {
    b0 as int * 0x100_0000 + b1 as int * 0x1_0000 + b2 as int * 0x100 + b3 as int
}

/// The version tag of a snapshot, if it is long enough to have one.
pub open spec fn tag_of(snapshot: Seq<u8>) -> Option<int> {
    if snapshot.len() >= TAG_BYTES {
        Some(be_u32(snapshot[0], snapshot[1], snapshot[2], snapshot[3]))
    } else {
        None
    }
}

/// Reads the version tag of a snapshot.
pub fn version_tag(snapshot: &[u8]) -> (r: Option<u32>)
    ensures
        match r {
            Some(v) => tag_of(snapshot@) == Some(v as int),
            None => tag_of(snapshot@) is None,
        },
{
    if snapshot.len() < TAG_BYTES {
        return None;
    }
    let b0: u32 = snapshot[0] as u32;
    let b1: u32 = snapshot[1] as u32;
    let b2: u32 = snapshot[2] as u32;
    let b3: u32 = snapshot[3] as u32;
    Some(b0 * 0x100_0000 + b1 * 0x1_0000 + b2 * 0x100 + b3)
}

/// Checks the version of a snapshot and hands out its payload: everything
/// after the tag, if and only if the tag is the expected one.
pub fn payload(snapshot: &[u8], expected_version: u32) -> (r: Result<&[u8], SnapshotError>)
    ensures
        match r {
            Ok(p) => tag_of(snapshot@) == Some(expected_version as int) && p@ == snapshot@.skip(
                TAG_BYTES as int,
            ),
            Err(e) => e == SnapshotError::VersionMismatch && tag_of(snapshot@) != Some(
                expected_version as int,
            ),
        },
{
    match version_tag(snapshot) {
        Some(v) => {
            if v == expected_version {
                let p = slice_subrange(snapshot, TAG_BYTES, snapshot.len());
                assert(p@ =~= snapshot@.skip(TAG_BYTES as int));
                Ok(p)
            } else {
                Err(SnapshotError::VersionMismatch)
            }
        },
        None => Err(SnapshotError::VersionMismatch),
    }
}

} // verus!
