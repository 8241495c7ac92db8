//! Everything that can end a run. All errors are fatal: no step is skipped
//! and nothing is retried.

use vstd::prelude::*;

verus! {

/// The reasons a run stops.
#[derive(Debug, PartialEq, Eq)]
pub enum BuildError {
    /// An `import` instruction names a step absent from the graph.
    UnknownImportTarget { step: String, import: String },
    /// The import edges form a cycle; `remaining` names the steps that could
    /// not be placed in any build order.
    CycleDetected { remaining: Vec<String> },
    /// A subprocess could not be started at all.
    SpawnFailed,
    /// The image-build subprocess exited with a nonzero status.
    BuildFailed { code: i32 },
    /// The image-export subprocess exited with a nonzero status.
    ExportFailed { code: i32 },
    /// The `repositories` metadata file of an exported image was absent.
    MetadataMissing,
    /// The `repositories` metadata file could not be parsed.
    MetadataUnparsable,
    /// Moving an extracted layer to its artifact location failed.
    LayerMoveFailed,
}

} // verus!
