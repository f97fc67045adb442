use vstd::prelude::*;

verus! {

/// A file must be (re)indexed when the index holds no entry for it, or the
/// stored modification time (whole seconds) differs from the current one.
pub open spec fn spec_index_stale(stored_mtime: Option<u64>, current_mtime: u64) -> bool {
    stored_mtime is None || stored_mtime->0 != current_mtime
}

/// The index staleness rule, as executable code.
pub fn index_stale(stored_mtime: Option<u64>, current_mtime: u64) -> (r: bool)
    ensures
        r == spec_index_stale(stored_mtime, current_mtime),
{
    match stored_mtime {
        None => true,
        Some(m) => m != current_mtime,
    }
}

/// A derived artifact must be regenerated when it does not exist, or the
/// source's modification time is strictly greater than the artifact's.
/// Times compare in whole milliseconds, so that source and destination
/// filesystems of different timestamp resolution cannot produce false
/// staleness.
pub open spec fn spec_artifact_stale(source_ms: u64, target_ms: Option<u64>) -> bool {
    target_ms is None || source_ms > target_ms->0
}

/// The derived-artifact staleness rule, as executable code.
pub fn artifact_stale(source_ms: u64, target_ms: Option<u64>) -> (r: bool)
    ensures
        r == spec_artifact_stale(source_ms, target_ms),
{
    match target_ms {
        None => true,
        Some(t) => source_ms > t,
    }
}

/// Idempotence at the artifact level: a published artifact carries its
/// source's modification time, and an artifact whose recorded time is at
/// least the source's is fresh, so publishing and then rerunning schedules
/// no work for the file.
pub proof fn lemma_publish_makes_fresh(source_ms: u64, target_ms: u64)
    requires
        target_ms >= source_ms,
    ensures
        !spec_artifact_stale(source_ms, Some(target_ms)),
{
}

} // verus!
