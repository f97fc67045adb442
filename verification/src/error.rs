use vstd::prelude::*;

verus! {

/// The run-level error taxonomy: filesystem trouble, a path that cannot be
/// related to its root, a tag that cannot be read, a tag that cannot be
/// written, and an external encoder or extractor that failed.
#[derive(Clone, Copy, Debug, PartialEq, Eq, Structural)]
pub enum AppError {
    IoError,
    PathError,
    ReadTagError,
    WriteTagError,
    ProcessError,
}

} // verus!
