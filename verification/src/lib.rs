//! Static analysis of the source tree of a Rust project: selection of the
//! files, extraction of the facts of each module, assembly of the dependency
//! graph with its cycles, and metrics of the modules and of the graph.
//!
//! The library computes on values: the files of a walk go in, an
//! architecture map comes out. Walking directories, reading files and showing
//! the map are left to the caller.

pub mod bindings;
pub mod config;
pub mod scanner;
pub mod text;
pub mod types;
pub mod visualizer;

pub use config::project_config::ProjectConfig;
pub use scanner::rust_scanner::ArchitectureScanner;
pub use types::{
    ArchitectureMap, ArchitectureMetrics, ArchitectureNode, DependencyEdge, DependencyType,
    EnumInfo, FunctionInfo, KindCount, MaintainabilityIndex, ModuleType, NodeMetrics, NodeStatus,
    Position, Ratio, StructInfo, Timestamp, TraitInfo,
};

use vstd::prelude::*;

verus! {

/// Version of the library.
pub const VERSION: &'static str = "0.1.0";

/// The default configuration.
pub fn default_config() -> (config: ProjectConfig)
    ensures
        config.is_default(),
{
    ProjectConfig::default()
}

} // verus!
