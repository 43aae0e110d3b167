//! The engine's configuration records: what a whole run takes, what one
//! worker receives, and the dispatch between the two roles.

use vstd::prelude::*;
use crate::paths::SourcePath;

verus! {

/// Configuration of a whole run: include search paths for the front end,
/// the source files to process, and the source root that bounds which
/// physical file locations are eligible for rewriting. A worker receives
/// the same shape with its shard of the file list.
pub struct MainOpt {
    pub include_dirs: Vec<SourcePath>,
    pub source: Vec<SourcePath>,
    pub source_root: SourcePath,
}

/// What a worker process is handed: one self-contained request blob
/// encoding a `MainOpt` restricted to the worker's shard.
pub struct WorkerOpt {
    pub opts: Vec<u8>,
}

/// The two roles of the engine's process: the orchestrator of a whole run,
/// or one worker analyzing its shard.
pub enum Opt {
    Main(MainOpt),
    Worker(WorkerOpt),
}

} // verus!
