//! Resolved, immutable run parameters, and the run-level error taxonomy.

use vstd::prelude::*;

verus! {

/// Default size of the worker pool that expands directories.
pub const DEFAULT_WORKER_COUNT: usize = 50;

/// Default age cutoff, in days.
pub const DEFAULT_CUTOFF_DAYS: u32 = 1095;

/// A run-level failure. Per-entry conditions (a denied directory, a failed
/// metadata read, a recently touched entry) are not run-level failures and
/// never abort a run.
#[derive(Debug, Clone, Copy, PartialEq, Eq, Structural)]
pub enum AuditError {
    /// The root path is missing or is not a directory; the walk never starts.
    FatalPrecondition,
    /// The report destination could not be created or written.
    WriteFailure,
}

/// Resolved run parameters, constructed once before the walk and shared
/// read-only by all workers.
#[derive(Debug, Clone)]
pub struct WalkConfiguration {
    /// Root of the audited subtree.
    pub root: String,
    /// Bound on concurrent directory-expansion operations.
    pub workers: usize,
    /// Age cutoff in days: entries last accessed strictly before
    /// `now - cutoff_days` qualify.
    pub cutoff_days: u32,
    /// When set, only directories are eligible for classification.
    pub directories_only: bool,
}

impl WalkConfiguration {
    /// The worker count must be a positive integer.
    pub open spec fn wf(&self) -> bool {
        self.workers >= 1
    }

    pub fn new(root: String, workers: usize, cutoff_days: u32, directories_only: bool) -> (c: Self)
        requires
            workers >= 1,
        ensures
            c.wf(),
            c.root@ == root@,
            c.workers == workers,
            c.cutoff_days == cutoff_days,
            c.directories_only == directories_only,
    {
        WalkConfiguration { root, workers, cutoff_days, directories_only }
    }

    /// A configuration with every parameter at its default.
    pub fn with_defaults(root: String) -> (c: Self)
        ensures
            c.wf(),
            c.root@ == root@,
            c.workers == DEFAULT_WORKER_COUNT,
            c.cutoff_days == DEFAULT_CUTOFF_DAYS,
            c.directories_only == false,
    {
        WalkConfiguration {
            root,
            workers: DEFAULT_WORKER_COUNT,
            cutoff_days: DEFAULT_CUTOFF_DAYS,
            directories_only: false,
        }
    }
}

/// The fatal-precondition gate: a walk may start only when the root exists
/// and is a directory. Returns the error exactly when either check fails.
pub fn check_root(root_exists: bool, root_is_directory: bool) -> (r: Result<(), AuditError>)
    ensures
        r is Ok <==> root_exists && root_is_directory,
        r matches Err(e) ==> e == AuditError::FatalPrecondition,
{
    if root_exists && root_is_directory {
        Ok(())
    } else {
        Err(AuditError::FatalPrecondition)
    }
}

} // verus!
