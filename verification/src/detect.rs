//! Classification of a visited directory: is it a cleanable project, and
//! has it been idle past the cutoff?
//!
//! The caller reports two marker facts about the directory — whether the
//! manifest marker file and the build-output subdirectory are present —
//! and the directory's last-modified time in whole seconds since the
//! epoch, where that time could be read.

use vstd::prelude::*;

verus! {

/// What a visited directory turned out to be.
#[derive(Clone, Copy, Debug, PartialEq, Eq, Structural)]
pub enum Classification {
    /// One of the two markers is missing: not a cleanable project.
    NotAProject,
    /// A project, but modified strictly after the cutoff.
    TooRecent,
    /// A project whose last-modified time is at or before the cutoff, or
    /// could not be read at all (the filter fails open).
    Eligible,
}

/// The classification rule. Both markers must be present; a marked
/// directory is too recent exactly when its last-modified time is known
/// and strictly after the cutoff.
pub open spec fn classify_spec(
    has_manifest: bool,
    has_build_dir: bool,
    modified: Option<u64>,
    cutoff: u64,
) -> Classification {
    if !has_manifest || !has_build_dir {
        Classification::NotAProject
    } else {
        match modified {
            Some(m) => if m > cutoff {
                Classification::TooRecent
            } else {
                Classification::Eligible
            },
            None => Classification::Eligible,
        }
    }
}

/// Classifies one directory from its marker facts and last-modified time
/// (seconds since the epoch; `None` when the time could not be read).
pub fn classify(has_manifest: bool, has_build_dir: bool, modified: Option<u64>, cutoff: u64) -> (r:
    Classification)
    ensures
        r == classify_spec(has_manifest, has_build_dir, modified, cutoff),
{
    if !has_manifest || !has_build_dir {
        Classification::NotAProject
    } else {
        match modified {
            Some(m) => if m > cutoff {
                Classification::TooRecent
            } else {
                Classification::Eligible
            },
            None => Classification::Eligible,
        }
    }
}

/// Law: a directory without the manifest marker is never eligible,
/// whatever its build directory or modification time say.
pub proof fn lemma_no_manifest_never_eligible(
    has_build_dir: bool,
    modified: Option<u64>,
    cutoff: u64,
)
    ensures
        classify_spec(false, has_build_dir, modified, cutoff) != Classification::Eligible,
{
}

/// Law: with both markers present, a last-modified time strictly after the
/// cutoff classifies as too recent, and one at or before the cutoff — the
/// boundary included — as eligible.
pub proof fn lemma_recency_boundary(modified: u64, cutoff: u64)
    ensures
        modified > cutoff ==> classify_spec(true, true, Some(modified), cutoff)
            == Classification::TooRecent,
        modified <= cutoff ==> classify_spec(true, true, Some(modified), cutoff)
            == Classification::Eligible,
{
}

} // verus!
