use vstd::prelude::*;

verus! {

/// The worker pool is sized to the hardware's parallelism, but never under
/// four, so that a machine reporting little parallelism still overlaps its
/// blocking filesystem and subprocess work.
pub fn pool_size(available: usize) -> (r: usize)
    ensures
        r == if available > 4 {
            available
        } else {
            4
        },
{
    if available > 4 {
        available
    } else {
        4
    }
}

/// Progress updates are batched so reporting cannot serialize job
/// execution: report on every tenth completion, and on the last.
pub fn should_report(completed: usize, total: usize) -> (r: bool)
    ensures
        r == (completed % 10 == 0 || completed == total),
{
    completed % 10 == 0 || completed == total
}

} // verus!
