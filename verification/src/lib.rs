//! Incremental synchronization of derived audio artifacts: a metadata index,
//! transcoded copies and extracted covers are kept consistent with a tree of
//! source media files, reprocessing only what changed and pruning what lost
//! its source.

mod entry;
mod error;
pub mod json;
pub mod listmap;
pub mod load;
pub mod order;
pub mod paths;
pub mod plan;
pub mod prune;
pub mod runner;
mod stale;
pub mod tags;
pub mod tidy;
pub mod transcode;

pub use entry::{EntryModel, IndexEntry, TagFields, TagFieldsModel};
pub use error::AppError;
pub use stale::{artifact_stale, index_stale, lemma_publish_makes_fresh, spec_artifact_stale,
    spec_index_stale};
