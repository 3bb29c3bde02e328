//! The analysis pipeline: file selection, fact extraction, graph assembly
//! and metrics.

pub mod dependency_analyzer;
pub mod idempotence;
pub mod metrics_calculator;
pub mod relabeling;
pub mod rust_scanner;
pub mod snapshot;

pub use rust_scanner::ArchitectureScanner;

use crate::config::project_config::ProjectConfig;
use crate::scanner::rust_scanner::WalkOutcome;
use crate::scanner::snapshot::is_consistent;
use crate::types::{ArchitectureMap, Timestamp};
use vstd::prelude::*;

verus! {

/// Why the root of a scan could not be walked.
#[derive(Debug, Clone, Copy, PartialEq, Eq, Structural)]
pub enum SelectionError {
    RootMissing,
    RootUnreadable,
}

/// Why a single file yields no module. The scan goes on without the file.
#[derive(Debug, Clone, Copy, PartialEq, Eq, Structural)]
pub enum ExtractionError {
    Unreadable,
    NotText,
    MetadataUnavailable,
}

/// Why a scan failed.
#[derive(Debug, Clone, Copy, PartialEq, Eq, Structural)]
pub enum ScanError {
    /// The root could not be walked.
    Selection(SelectionError),
    /// The project is of a kind that no scanner knows.
    UnsupportedProject,
}

impl ScanError {
    /// The message of each error.
    pub open spec fn spec_message(self) -> Seq<char> {
        match self {
            ScanError::Selection(SelectionError::RootMissing) => {
                "The project root does not exist."@
            },
            ScanError::Selection(SelectionError::RootUnreadable) => {
                "The project root cannot be read."@
            },
            ScanError::UnsupportedProject => {
                "Unsupported project type. Only Rust projects are currently supported."@
            },
        }
    }

    /// The message shown for the error.
    pub fn message(&self) -> (text: &'static str)
        ensures
            text@ == self.spec_message(),
    {
        match self {
            ScanError::Selection(SelectionError::RootMissing) => {
                "The project root does not exist."
            },
            ScanError::Selection(SelectionError::RootUnreadable) => {
                "The project root cannot be read."
            },
            ScanError::UnsupportedProject => {
                "Unsupported project type. Only Rust projects are currently supported."
            },
        }
    }
}

/// What every scanner of a project does.
pub trait ProjectScanner {
    /// Scans the files of a walk. A root that could not be walked fails the
    /// scan with the reason of the walk; otherwise the map that comes back is
    /// consistent and bears the time given.
    fn scan(&self, walk: &WalkOutcome, last_scan: Timestamp) -> (result: Result<
        ArchitectureMap,
        ScanError,
    >)
        ensures
            walk matches Err(reason) ==> result == Err::<ArchitectureMap, ScanError>(
                ScanError::Selection(*reason),
            ),
            walk is Ok ==> result is Ok,
            result matches Ok(map) ==> is_consistent(map) && map.last_scan == last_scan,
    ;

    /// Scans the files of a walk, given the map of the scan before.
    fn scan_incremental(
        &self,
        walk: &WalkOutcome,
        last_scan: Timestamp,
        previous: Option<ArchitectureMap>,
    ) -> (result: Result<ArchitectureMap, ScanError>)
        ensures
            walk matches Err(reason) ==> result == Err::<ArchitectureMap, ScanError>(
                ScanError::Selection(*reason),
            ),
            walk is Ok ==> result is Ok,
            result matches Ok(map) ==> is_consistent(map) && map.last_scan == last_scan,
    ;
}

/// Creates the scanner for a project, given whether a Cargo manifest lies in
/// its root: only Rust projects have a scanner.
pub fn create_scanner(project_path: &str, config: ProjectConfig, has_manifest: bool) -> (result:
    Result<ArchitectureScanner, ScanError>)
    ensures
        match result {
            Ok(scanner) => has_manifest && scanner.project_path@ == project_path@ && scanner.config
                == config,
            Err(error) => !has_manifest && error == ScanError::UnsupportedProject,
        },
{
    if has_manifest {
        Ok(ArchitectureScanner::new(project_path, config))
    } else {
        Err(ScanError::UnsupportedProject)
    }
}

} // verus!
