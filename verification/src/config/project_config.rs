//! The configuration values and their defaults.

use vstd::prelude::*;

verus! {

/// Available themes.
#[derive(Debug, Clone, PartialEq, Eq)]
pub enum Theme {
    Light,
    Dark,
    Auto,
    Custom(String),
}

/// Layout types.
#[derive(Debug, Clone, PartialEq, Eq)]
pub enum LayoutType {
    Grid,
    ForceDirected,
    Hierarchical,
    Circular,
    Custom(String),
}

/// Project configuration.
#[derive(Debug, Clone, PartialEq, Eq)]
pub struct ProjectConfig {
    pub project: ProjectSettings,
    pub scanning: ScanningSettings,
    pub visualization: VisualizationSettings,
    pub server: ServerSettings,
}

/// Project-specific settings.
#[derive(Debug, Clone, PartialEq, Eq)]
pub struct ProjectSettings {
    pub name: Option<String>,
    pub description: Option<String>,
    pub version: Option<String>,
    pub authors: Vec<String>,
    pub repository: Option<String>,
}

/// Scanning configuration.
#[derive(Debug, Clone, PartialEq, Eq)]
pub struct ScanningSettings {
    pub include_tests: bool,
    pub include_examples: bool,
    pub include_benches: bool,
    pub include_docs: bool,
    pub exclude_patterns: Vec<String>,
    pub include_patterns: Vec<String>,
    pub scan_interval: u64,
    pub max_file_size: Option<usize>,
    pub follow_symlinks: bool,
    pub ignore_gitignore: bool,
}

/// Visualization settings.
#[derive(Debug, Clone, PartialEq, Eq)]
pub struct VisualizationSettings {
    pub theme: Theme,
    pub layout: LayoutType,
    pub show_metrics: bool,
    pub show_dependencies: bool,
    pub show_errors: bool,
    pub show_warnings: bool,
    pub group_by_type: bool,
    pub show_file_paths: bool,
    pub show_documentation: bool,
    /// Complexity score, in tenths, above which modules are left out.
    pub filter_complexity: Option<u64>,
    pub filter_type: Option<String>,
    pub auto_refresh: bool,
    pub refresh_interval: u64,
}

/// Server settings.
#[derive(Debug, Clone, PartialEq, Eq)]
pub struct ServerSettings {
    pub port: u16,
    pub host: String,
    pub cors_origins: Vec<String>,
    pub enable_websocket: bool,
    pub enable_compression: bool,
    pub max_request_size: Option<usize>,
    pub timeout: Option<u64>,
}

/// The package section of a Cargo manifest, as far as it is used.
#[derive(Debug, Clone, PartialEq, Eq)]
pub struct CargoPackage {
    pub name: String,
    pub description: Option<String>,
    pub version: String,
    pub authors: Option<Vec<String>>,
    pub repository: Option<String>,
}

/// The formats in which a configuration file can be written.
#[derive(Debug, Clone, Copy, PartialEq, Eq, Structural)]
pub enum ConfigFormat {
    Toml,
    Yaml,
    Json,
}

/// The format that a file extension stands for.
pub open spec fn format_of_extension(extension: Seq<char>) -> Option<ConfigFormat> {
    if extension == "toml"@ {
        Some(ConfigFormat::Toml)
    } else if extension == "yaml"@ || extension == "yml"@ {
        Some(ConfigFormat::Yaml)
    } else if extension == "json"@ {
        Some(ConfigFormat::Json)
    } else {
        None
    }
}

/// The patterns excluded by default.
pub open spec fn default_exclude_patterns() -> Seq<Seq<char>> {
    seq!["target/**"@, "**/target/**"@, "**/.git/**"@, "**/node_modules/**"@, "**/.*"@]
}

/// The patterns included by default.
pub open spec fn default_include_patterns() -> Seq<Seq<char>> {
    seq!["**/*.rs"@]
}

impl ConfigFormat {
    /// The format of a configuration file with the given extension.
    pub fn from_extension(extension: &str) -> (format: Option<ConfigFormat>)
        ensures
            format == format_of_extension(extension@),
    {
        let ext = extension.to_owned();
        if ext == "toml".to_owned() {
            Some(ConfigFormat::Toml)
        } else if ext == "yaml".to_owned() || ext == "yml".to_owned() {
            Some(ConfigFormat::Yaml)
        } else if ext == "json".to_owned() {
            Some(ConfigFormat::Json)
        } else {
            None
        }
    }
}

impl ProjectSettings {
    /// The settings name no project.
    pub open spec fn is_default(self) -> bool {
        &&& self.name is None
        &&& self.description is None
        &&& self.version is None
        &&& self.authors@.len() == 0
        &&& self.repository is None
    }
}

impl ScanningSettings {
    /// The default scanning settings: tests are scanned, examples, benches
    /// and docs are not; build output, version control, package and hidden
    /// files are excluded; Rust sources of up to 10 MiB are included;
    /// symbolic links are not followed.
    pub open spec fn is_default(self) -> bool {
        &&& self.include_tests
        &&& !self.include_examples
        &&& !self.include_benches
        &&& !self.include_docs
        &&& self.exclude_patterns.deep_view() == default_exclude_patterns()
        &&& self.include_patterns.deep_view() == default_include_patterns()
        &&& self.scan_interval == 30
        &&& self.max_file_size == Some(10485760usize)
        &&& !self.follow_symlinks
        &&& self.ignore_gitignore
    }
}

impl VisualizationSettings {
    /// The default visualization settings: automatic theme, force-directed
    /// layout, everything shown, nothing filtered, refreshed every 30 seconds.
    pub open spec fn is_default(self) -> bool {
        &&& self.theme is Auto
        &&& self.layout is ForceDirected
        &&& self.show_metrics
        &&& self.show_dependencies
        &&& self.show_errors
        &&& self.show_warnings
        &&& self.group_by_type
        &&& self.show_file_paths
        &&& self.show_documentation
        &&& self.filter_complexity is None
        &&& self.filter_type is None
        &&& self.auto_refresh
        &&& self.refresh_interval == 30
    }
}

impl ServerSettings {
    /// The default server settings: port 8000 on the loopback address, every
    /// origin allowed, WebSocket and compression on, requests of up to 10 MiB,
    /// a timeout of 30 seconds.
    pub open spec fn is_default(self) -> bool {
        &&& self.port == 8000
        &&& self.host@ == "127.0.0.1"@
        &&& self.cors_origins.deep_view() == seq!["*"@]
        &&& self.enable_websocket
        &&& self.enable_compression
        &&& self.max_request_size == Some(10485760usize)
        &&& self.timeout == Some(30u64)
    }
}

impl ProjectConfig {
    /// Every section holds its default values.
    pub open spec fn is_default(self) -> bool {
        &&& self.project.is_default()
        &&& self.scanning.is_default()
        &&& self.visualization.is_default()
        &&& self.server.is_default()
    }

    /// The default configuration with the project settings taken from the
    /// package section of a Cargo manifest, where there is one.
    pub fn from_cargo_toml(package: Option<CargoPackage>) -> (config: ProjectConfig)
        ensures
            config.scanning.is_default(),
            config.visualization.is_default(),
            config.server.is_default(),
            match package {
                None => config.project.is_default(),
                Some(p) => {
                    &&& config.project.name == Some(p.name)
                    &&& config.project.description == p.description
                    &&& config.project.version == Some(p.version)
                    &&& config.project.authors == match p.authors {
                        Some(authors) => authors,
                        None => config.project.authors,
                    }
                    &&& p.authors is None ==> config.project.authors@.len() == 0
                    &&& config.project.repository == p.repository
                },
            },
    {
        let mut config = ProjectConfig::default();
        if let Some(p) = package {
            config.project.name = Some(p.name);
            config.project.description = p.description;
            config.project.version = Some(p.version);
            config.project.authors = match p.authors {
                Some(authors) => authors,
                None => Vec::new(),
            };
            config.project.repository = p.repository;
        }
        config
    }
}

impl Default for ProjectConfig {
    fn default() -> (config: Self)
        ensures
            config.is_default(),
    {
        let exclude_patterns = vec![
            "target/**".to_owned(),
            "**/target/**".to_owned(),
            "**/.git/**".to_owned(),
            "**/node_modules/**".to_owned(),
            "**/.*".to_owned(),
        ];
        let include_patterns = vec!["**/*.rs".to_owned()];
        let cors_origins = vec!["*".to_owned()];
        proof {
            assert(exclude_patterns.deep_view() =~= default_exclude_patterns());
            assert(include_patterns.deep_view() =~= default_include_patterns());
            assert(cors_origins.deep_view() =~= seq!["*"@]);
        }
        Self {
            project: ProjectSettings {
                name: None,
                description: None,
                version: None,
                authors: Vec::new(),
                repository: None,
            },
            scanning: ScanningSettings {
                include_tests: true,
                include_examples: false,
                include_benches: false,
                include_docs: false,
                exclude_patterns,
                include_patterns,
                scan_interval: 30,
                max_file_size: Some(10485760),
                follow_symlinks: false,
                ignore_gitignore: true,
            },
            visualization: VisualizationSettings {
                theme: Theme::Auto,
                layout: LayoutType::ForceDirected,
                show_metrics: true,
                show_dependencies: true,
                show_errors: true,
                show_warnings: true,
                group_by_type: true,
                show_file_paths: true,
                show_documentation: true,
                filter_complexity: None,
                filter_type: None,
                auto_refresh: true,
                refresh_interval: 30,
            },
            server: ServerSettings {
                port: 8000,
                host: "127.0.0.1".to_owned(),
                cors_origins,
                enable_websocket: true,
                enable_compression: true,
                max_request_size: Some(10485760),
                timeout: Some(30),
            },
        }
    }
}

} // verus!
