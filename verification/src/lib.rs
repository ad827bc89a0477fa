//! Working-copy status engine: given one or two parent manifests, a per-path
//! flag store with directory-aggregated summaries, a set of on-disk change
//! observations, and composable path predicates, compute which paths are
//! added, modified, removed, deleted, unknown, ignored, or clean.

pub mod cli;
pub mod clone_cmd;
pub mod errors;
pub mod healer;
pub mod filestate;
pub mod filesystem;
pub mod logger;
pub mod manifest;
pub mod matcher;
pub mod path;
pub mod sparse;
pub mod status;
pub mod treestate;
pub mod workingcopy;

pub use path::PathError;
pub use path::RepoPathBuf;
