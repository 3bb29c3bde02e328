//! The data model: modules, their metrics and structural records, dependency
//! edges, and the architecture map that a scan produces.
//!
//! Scores that carry a fraction are held as integers in a fixed unit, and
//! quotients as a numerator and a denominator, so that every value is exact.

pub use crate::config::project_config::{LayoutType, Theme, VisualizationSettings};

use vstd::prelude::*;

verus! {

/// A point in time: seconds and nanoseconds since the Unix epoch.
#[derive(Debug, Clone, Copy, PartialEq, Eq, Structural)]
pub struct Timestamp {
    pub secs: i64,
    pub nanos: u32,
}

/// A non-negative quotient `num / den`.
#[derive(Debug, Clone, Copy, PartialEq, Eq, Structural)]
pub struct Ratio {
    pub num: u128,
    pub den: u128,
}

impl Ratio {
    /// The quotient is defined and lies between zero and one.
    pub open spec fn in_unit_interval(self) -> bool {
        0 < self.den && self.num <= self.den
    }

    /// The quotient is zero.
    pub open spec fn is_zero(self) -> bool {
        0 < self.den && self.num == 0
    }

    /// The quotient with value zero.
    pub fn zero() -> (r: Ratio)
        ensures
            r == (Ratio { num: 0, den: 1 }),
    {
        Ratio { num: 0, den: 1 }
    }
}

/// Layout hint of a module, in thousandths of a layout unit. The analysis
/// never sets it.
#[derive(Debug, Clone, Copy, PartialEq, Eq, Structural)]
pub struct Position {
    pub x: i64,
    pub y: i64,
    pub z: i64,
}

/// The kind of a module, inferred from its path and content.
#[derive(Debug, Clone, PartialEq, Eq, Hash)]
pub enum ModuleType {
    Core,
    DataProcessing,
    AI,
    Performance,
    Validation,
    Execution,
    Integration,
    API,
    Processing,
    Scaffold,
    Testing,
    Utilities,
    Configuration,
    Database,
    Network,
    Security,
    Logging,
    Monitoring,
    Other(String),
}

impl ModuleType {
    /// Position of the variant in the declaration.
    pub open spec fn ordinal(self) -> nat {
        match self {
            ModuleType::Core => 0,
            ModuleType::DataProcessing => 1,
            ModuleType::AI => 2,
            ModuleType::Performance => 3,
            ModuleType::Validation => 4,
            ModuleType::Execution => 5,
            ModuleType::Integration => 6,
            ModuleType::API => 7,
            ModuleType::Processing => 8,
            ModuleType::Scaffold => 9,
            ModuleType::Testing => 10,
            ModuleType::Utilities => 11,
            ModuleType::Configuration => 12,
            ModuleType::Database => 13,
            ModuleType::Network => 14,
            ModuleType::Security => 15,
            ModuleType::Logging => 16,
            ModuleType::Monitoring => 17,
            ModuleType::Other(_) => 18,
        }
    }

    /// The label of `Other`, empty for every other variant.
    pub open spec fn label(self) -> Seq<char> {
        match self {
            ModuleType::Other(label) => label@,
            _ => Seq::empty(),
        }
    }

    /// Two kinds are the same: the same variant, and for `Other` the same
    /// label.
    pub open spec fn same_kind(self, other: ModuleType) -> bool {
        self.ordinal() == other.ordinal() && self.label() == other.label()
    }

    /// The display colour of each kind.
    pub open spec fn spec_color(self) -> Seq<char> {
        match self {
            ModuleType::Core => "#e74c3c"@,
            ModuleType::DataProcessing => "#3498db"@,
            ModuleType::AI => "#9b59b6"@,
            ModuleType::Performance => "#f39c12"@,
            ModuleType::Validation => "#2ecc71"@,
            ModuleType::Execution => "#1abc9c"@,
            ModuleType::Integration => "#34495e"@,
            ModuleType::API => "#e67e22"@,
            ModuleType::Processing => "#8e44ad"@,
            ModuleType::Scaffold => "#16a085"@,
            ModuleType::Testing => "#f1c40f"@,
            ModuleType::Utilities => "#95a5a6"@,
            ModuleType::Configuration => "#7f8c8d"@,
            ModuleType::Database => "#27ae60"@,
            ModuleType::Network => "#2980b9"@,
            ModuleType::Security => "#c0392b"@,
            ModuleType::Logging => "#8e44ad"@,
            ModuleType::Monitoring => "#d35400"@,
            ModuleType::Other(_) => "#bdc3c7"@,
        }
    }

    /// The icon of each kind.
    pub open spec fn spec_icon(self) -> Seq<char> {
        match self {
            ModuleType::Core => "⚙️"@,
            ModuleType::DataProcessing => "📊"@,
            ModuleType::AI => "🤖"@,
            ModuleType::Performance => "⚡"@,
            ModuleType::Validation => "✅"@,
            ModuleType::Execution => "▶️"@,
            ModuleType::Integration => "🔗"@,
            ModuleType::API => "🌐"@,
            ModuleType::Processing => "⚙️"@,
            ModuleType::Scaffold => "🏗️"@,
            ModuleType::Testing => "🧪"@,
            ModuleType::Utilities => "🛠️"@,
            ModuleType::Configuration => "⚙️"@,
            ModuleType::Database => "🗄️"@,
            ModuleType::Network => "🌐"@,
            ModuleType::Security => "🔒"@,
            ModuleType::Logging => "📝"@,
            ModuleType::Monitoring => "📈"@,
            ModuleType::Other(_) => "📦"@,
        }
    }

    /// The name shown for each kind; `Other` shows its label.
    pub open spec fn spec_display_name(self) -> Seq<char> {
        match self {
            ModuleType::Core => "Core"@,
            ModuleType::DataProcessing => "Data Processing"@,
            ModuleType::AI => "AI"@,
            ModuleType::Performance => "Performance"@,
            ModuleType::Validation => "Validation"@,
            ModuleType::Execution => "Execution"@,
            ModuleType::Integration => "Integration"@,
            ModuleType::API => "API"@,
            ModuleType::Processing => "Processing"@,
            ModuleType::Scaffold => "Scaffold"@,
            ModuleType::Testing => "Testing"@,
            ModuleType::Utilities => "Utilities"@,
            ModuleType::Configuration => "Configuration"@,
            ModuleType::Database => "Database"@,
            ModuleType::Network => "Network"@,
            ModuleType::Security => "Security"@,
            ModuleType::Logging => "Logging"@,
            ModuleType::Monitoring => "Monitoring"@,
            ModuleType::Other(label) => label@,
        }
    }

    /// The display colour of the kind.
    pub fn color(&self) -> (c: &'static str)
        ensures
            c@ == self.spec_color(),
    {
        match self {
            ModuleType::Core => "#e74c3c",
            ModuleType::DataProcessing => "#3498db",
            ModuleType::AI => "#9b59b6",
            ModuleType::Performance => "#f39c12",
            ModuleType::Validation => "#2ecc71",
            ModuleType::Execution => "#1abc9c",
            ModuleType::Integration => "#34495e",
            ModuleType::API => "#e67e22",
            ModuleType::Processing => "#8e44ad",
            ModuleType::Scaffold => "#16a085",
            ModuleType::Testing => "#f1c40f",
            ModuleType::Utilities => "#95a5a6",
            ModuleType::Configuration => "#7f8c8d",
            ModuleType::Database => "#27ae60",
            ModuleType::Network => "#2980b9",
            ModuleType::Security => "#c0392b",
            ModuleType::Logging => "#8e44ad",
            ModuleType::Monitoring => "#d35400",
            ModuleType::Other(_) => "#bdc3c7",
        }
    }

    /// The icon of the kind.
    pub fn icon(&self) -> (i: &'static str)
        ensures
            i@ == self.spec_icon(),
    {
        match self {
            ModuleType::Core => "⚙️",
            ModuleType::DataProcessing => "📊",
            ModuleType::AI => "🤖",
            ModuleType::Performance => "⚡",
            ModuleType::Validation => "✅",
            ModuleType::Execution => "▶️",
            ModuleType::Integration => "🔗",
            ModuleType::API => "🌐",
            ModuleType::Processing => "⚙️",
            ModuleType::Scaffold => "🏗️",
            ModuleType::Testing => "🧪",
            ModuleType::Utilities => "🛠️",
            ModuleType::Configuration => "⚙️",
            ModuleType::Database => "🗄️",
            ModuleType::Network => "🌐",
            ModuleType::Security => "🔒",
            ModuleType::Logging => "📝",
            ModuleType::Monitoring => "📈",
            ModuleType::Other(_) => "📦",
        }
    }

    /// Human-friendly display name for the module type.
    pub fn display_name(&self) -> (name: String)
        ensures
            name@ == self.spec_display_name(),
    {
        match self {
            ModuleType::Core => "Core".to_owned(),
            ModuleType::DataProcessing => "Data Processing".to_owned(),
            ModuleType::AI => "AI".to_owned(),
            ModuleType::Performance => "Performance".to_owned(),
            ModuleType::Validation => "Validation".to_owned(),
            ModuleType::Execution => "Execution".to_owned(),
            ModuleType::Integration => "Integration".to_owned(),
            ModuleType::API => "API".to_owned(),
            ModuleType::Processing => "Processing".to_owned(),
            ModuleType::Scaffold => "Scaffold".to_owned(),
            ModuleType::Testing => "Testing".to_owned(),
            ModuleType::Utilities => "Utilities".to_owned(),
            ModuleType::Configuration => "Configuration".to_owned(),
            ModuleType::Database => "Database".to_owned(),
            ModuleType::Network => "Network".to_owned(),
            ModuleType::Security => "Security".to_owned(),
            ModuleType::Logging => "Logging".to_owned(),
            ModuleType::Monitoring => "Monitoring".to_owned(),
            ModuleType::Other(label) => label.clone(),
        }
    }

    /// Position of the variant in the declaration.
    pub fn variant_index(&self) -> (n: u8)
        ensures
            n == self.ordinal(),
    {
        match self {
            ModuleType::Core => 0,
            ModuleType::DataProcessing => 1,
            ModuleType::AI => 2,
            ModuleType::Performance => 3,
            ModuleType::Validation => 4,
            ModuleType::Execution => 5,
            ModuleType::Integration => 6,
            ModuleType::API => 7,
            ModuleType::Processing => 8,
            ModuleType::Scaffold => 9,
            ModuleType::Testing => 10,
            ModuleType::Utilities => 11,
            ModuleType::Configuration => 12,
            ModuleType::Database => 13,
            ModuleType::Network => 14,
            ModuleType::Security => 15,
            ModuleType::Logging => 16,
            ModuleType::Monitoring => 17,
            ModuleType::Other(_) => 18,
        }
    }

    /// Tells whether two kinds are the same.
    pub fn is_same_kind(&self, other: &ModuleType) -> (b: bool)
        ensures
            b == self.same_kind(*other),
    {
        match (self, other) {
            (ModuleType::Other(a), ModuleType::Other(b)) => *a == *b,
            _ => self.variant_index() == other.variant_index(),
        }
    }

    /// A copy of this kind.
    pub fn duplicate(&self) -> (copy: ModuleType)
        ensures
            copy == *self,
    {
        match self {
            ModuleType::Core => ModuleType::Core,
            ModuleType::DataProcessing => ModuleType::DataProcessing,
            ModuleType::AI => ModuleType::AI,
            ModuleType::Performance => ModuleType::Performance,
            ModuleType::Validation => ModuleType::Validation,
            ModuleType::Execution => ModuleType::Execution,
            ModuleType::Integration => ModuleType::Integration,
            ModuleType::API => ModuleType::API,
            ModuleType::Processing => ModuleType::Processing,
            ModuleType::Scaffold => ModuleType::Scaffold,
            ModuleType::Testing => ModuleType::Testing,
            ModuleType::Utilities => ModuleType::Utilities,
            ModuleType::Configuration => ModuleType::Configuration,
            ModuleType::Database => ModuleType::Database,
            ModuleType::Network => ModuleType::Network,
            ModuleType::Security => ModuleType::Security,
            ModuleType::Logging => ModuleType::Logging,
            ModuleType::Monitoring => ModuleType::Monitoring,
            ModuleType::Other(label) => ModuleType::Other(label.clone()),
        }
    }
}

/// Lifecycle flag of a module. A scan creates every module as `Active`.
#[derive(Debug, Clone, Copy, PartialEq, Eq, Structural)]
pub enum NodeStatus {
    Active,
    Inactive,
    Error,
    Building,
    Deprecated,
    Experimental,
}

/// Metrics of one module, computed from its text.
#[derive(Debug, Clone, PartialEq, Eq)]
pub struct NodeMetrics {
    /// Lines that are neither blank nor comments.
    pub lines_of_code: usize,
    /// Heuristic complexity in tenths, at most `u64::MAX`.
    pub complexity_score: u64,
    /// Test coverage in percent; the analysis leaves it at zero.
    pub test_coverage: u64,
    pub function_count: usize,
    pub struct_count: usize,
    pub enum_count: usize,
    pub trait_count: usize,
    /// Time of the last build; the analysis leaves it unset.
    pub last_build_time: Option<Timestamp>,
    pub error_count: usize,
    pub warning_count: usize,
    /// Number of edges that leave the module, once the graph is assembled.
    pub dependency_count: usize,
    /// Number of edges that reach the module, once the graph is assembled.
    pub dependent_count: usize,
    /// Cyclomatic complexity, at most `u64::MAX`.
    pub cyclomatic_complexity: u64,
    /// Cognitive complexity in halves, at most `u64::MAX`.
    pub cognitive_complexity: u64,
}

/// A function found in a module.
#[derive(Debug, Clone, PartialEq, Eq)]
pub struct FunctionInfo {
    pub name: String,
    pub is_public: bool,
    pub is_async: bool,
    pub parameter_count: usize,
    /// Complexity in tenths.
    pub complexity: u64,
    pub lines_of_code: usize,
    pub documentation: Option<String>,
    pub attributes: Vec<String>,
}

/// A struct found in a module.
#[derive(Debug, Clone, PartialEq, Eq)]
pub struct StructInfo {
    pub name: String,
    pub is_public: bool,
    pub field_count: usize,
    pub derives: Vec<String>,
    pub documentation: Option<String>,
    pub attributes: Vec<String>,
    pub generics: Vec<String>,
}

/// An enum found in a module.
#[derive(Debug, Clone, PartialEq, Eq)]
pub struct EnumInfo {
    pub name: String,
    pub is_public: bool,
    pub variant_count: usize,
    pub derives: Vec<String>,
    pub documentation: Option<String>,
    pub attributes: Vec<String>,
    pub generics: Vec<String>,
}

/// A trait found in a module.
#[derive(Debug, Clone, PartialEq, Eq)]
pub struct TraitInfo {
    pub name: String,
    pub is_public: bool,
    pub method_count: usize,
    pub documentation: Option<String>,
    pub attributes: Vec<String>,
    pub generics: Vec<String>,
    pub supertraits: Vec<String>,
}

/// One discovered source file.
#[derive(Debug, Clone, PartialEq, Eq)]
pub struct ArchitectureNode {
    pub id: String,
    pub name: String,
    pub module_type: ModuleType,
    pub file_path: String,
    /// Raw dependency references in the order found, repeats included.
    pub dependencies: Vec<String>,
    /// Ids of the modules with an edge to this one, once the graph is
    /// assembled.
    pub dependents: Vec<String>,
    pub status: NodeStatus,
    pub metrics: NodeMetrics,
    pub last_modified: Timestamp,
    pub functions: Vec<FunctionInfo>,
    pub structs: Vec<StructInfo>,
    pub enums: Vec<EnumInfo>,
    pub traits: Vec<TraitInfo>,
    pub position: Option<Position>,
}

/// How one module relates to another.
#[derive(Debug, Clone, Copy, PartialEq, Eq, Structural)]
pub enum DependencyType {
    Uses,
    Implements,
    Extends,
    Imports,
    DependsOn,
    Calls,
    References,
    Contains,
}

/// A directed relation between two modules, named by their ids.
#[derive(Debug, Clone, PartialEq, Eq)]
pub struct DependencyEdge {
    pub from: String,
    pub to: String,
    pub relationship: DependencyType,
    /// Strength in tenths, between 0 and 10.
    pub strength: u64,
    pub is_circular: bool,
}

/// How many modules have one kind.
#[derive(Debug, Clone, PartialEq, Eq)]
pub struct KindCount {
    pub kind: ModuleType,
    pub count: usize,
}

/// The two components of the maintainability index, each between zero and
/// one. The index is their mean.
#[derive(Debug, Clone, Copy, PartialEq, Eq, Structural)]
pub struct MaintainabilityIndex {
    pub lines_factor: Ratio,
    pub complexity_factor: Ratio,
}

impl MaintainabilityIndex {
    /// Twice the index, over the denominator `self.scale()`.
    pub open spec fn doubled(self) -> int {
        self.lines_factor.num * self.complexity_factor.den + self.complexity_factor.num
            * self.lines_factor.den
    }

    /// The common denominator of the two components.
    pub open spec fn scale(self) -> int {
        self.lines_factor.den * self.complexity_factor.den
    }

    /// The index lies between zero and one.
    pub open spec fn in_unit_interval(self) -> bool {
        0 < self.scale() && 0 <= self.doubled() <= 2 * self.scale()
    }
}

/// Metrics of the whole graph.
#[derive(Debug, Clone, PartialEq, Eq)]
pub struct ArchitectureMetrics {
    pub total_functions: u128,
    pub total_structs: u128,
    pub total_enums: u128,
    pub total_traits: u128,
    /// Largest complexity score of a module, in tenths; zero without modules.
    pub max_complexity: u64,
    /// Smallest complexity score of a module, in tenths; zero without modules.
    pub min_complexity: u64,
    /// Edges per ordered pair of distinct modules.
    pub dependency_density: Ratio,
    /// The modules per kind, from which the modularity score, the normalised
    /// entropy of this distribution, is derived.
    pub kind_distribution: Vec<KindCount>,
    pub maintainability_index: MaintainabilityIndex,
}

/// The result of one scan.
#[derive(Debug, Clone, PartialEq, Eq)]
pub struct ArchitectureMap {
    /// The modules; no two share an id.
    pub nodes: Vec<ArchitectureNode>,
    pub edges: Vec<DependencyEdge>,
    pub last_scan: Timestamp,
    pub total_modules: usize,
    pub total_lines: u128,
    /// Mean complexity score of the modules, in tenths.
    pub average_complexity: Ratio,
    /// The cycles found, each a path of module ids.
    pub circular_dependencies: Vec<Vec<String>>,
    pub metrics: ArchitectureMetrics,
}

} // verus!
