//! Configuration of a scan and of what is shown of its result.

pub mod project_config;

pub use project_config::ProjectConfig;

use vstd::prelude::*;

verus! {

/// Default seconds between two scans.
pub const DEFAULT_SCAN_INTERVAL: u64 = 30;

/// Default port of the server.
pub const DEFAULT_PORT: u16 = 8000;

/// Default host of the server.
pub const DEFAULT_HOST: &'static str = "127.0.0.1";

/// Default theme.
pub const DEFAULT_THEME: &'static str = "auto";

/// The names under which a configuration file is looked for, in order of
/// preference.
pub open spec fn config_file_names() -> Seq<Seq<char>> {
    seq![
        "rust-arch-viz.toml"@,
        "rust-arch-viz.yaml"@,
        "rust-arch-viz.yml"@,
        "rust-arch-viz.json"@,
        ".rust-arch-viz.toml"@,
        ".rust-arch-viz.yaml"@,
        ".rust-arch-viz.yml"@,
        ".rust-arch-viz.json"@,
    ]
}

/// The string `name` is among `names`.
pub open spec fn name_present(names: Seq<String>, name: Seq<char>) -> bool {
    exists|i: int| 0 <= i < names.len() && (#[trigger] names[i])@ == name
}

/// The configuration file chosen among the file names `present`: the first
/// of `config_file_names()` that is present, if any.
pub open spec fn preferred_config_file(present: Seq<String>, k: int) -> Option<Seq<char>>
    decreases config_file_names().len() - k,
{
    if k < 0 || k >= config_file_names().len() {
        None
    } else if name_present(present, config_file_names()[k]) {
        Some(config_file_names()[k])
    } else {
        preferred_config_file(present, k + 1)
    }
}

/// Where the configuration of a project comes from.
#[derive(Debug, Clone, PartialEq, Eq)]
pub enum ConfigSource {
    /// The configuration file of this name in the project directory.
    File(String),
    /// The package section of the Cargo manifest of the project.
    CargoManifest,
    /// The default values.
    Defaults,
}

/// `source` is where the configuration of a project comes from, given the
/// names of the files in its directory: the preferred configuration file if
/// there is one, else the Cargo manifest if there is one, else the defaults.
pub open spec fn is_config_source(source: ConfigSource, present: Seq<String>) -> bool {
    match source {
        ConfigSource::File(name) => preferred_config_file(present, 0) == Some(name@),
        ConfigSource::CargoManifest => preferred_config_file(present, 0) is None && name_present(
            present,
            "Cargo.toml"@,
        ),
        ConfigSource::Defaults => preferred_config_file(present, 0) is None && !name_present(
            present,
            "Cargo.toml"@,
        ),
    }
}

/// Decides where the configuration of a project comes from, given the names
/// of the files in its directory.
pub fn choose_config_source(present: &Vec<String>) -> (source: ConfigSource)
    ensures
        is_config_source(source, present@),
{
    match find_config_file(present) {
        Some(name) => ConfigSource::File(name),
        None => {
            if is_present(present, "Cargo.toml") {
                ConfigSource::CargoManifest
            } else {
                ConfigSource::Defaults
            }
        },
    }
}

fn is_present(present: &Vec<String>, name: &str) -> (b: bool)
    ensures
        b == name_present(present@, name@),
{
    let wanted = name.to_owned();
    let mut i: usize = 0;
    while i < present.len()
        invariant
            i <= present.len(),
            wanted@ == name@,
            forall|j: int| 0 <= j < i ==> (#[trigger] present@[j])@ != name@,
        decreases present.len() - i,
    {
        if present[i] == wanted {
            return true;
        }
        i = i + 1;
    }
    false
}

/// The names under which a configuration file is looked for, in order of
/// preference.
pub fn config_file_candidates() -> (names: Vec<String>)
    ensures
        names.deep_view() == config_file_names(),
{
    let names = vec![
        "rust-arch-viz.toml".to_owned(),
        "rust-arch-viz.yaml".to_owned(),
        "rust-arch-viz.yml".to_owned(),
        "rust-arch-viz.json".to_owned(),
        ".rust-arch-viz.toml".to_owned(),
        ".rust-arch-viz.yaml".to_owned(),
        ".rust-arch-viz.yml".to_owned(),
        ".rust-arch-viz.json".to_owned(),
    ];
    assert(names.deep_view() =~= config_file_names());
    names
}

/// Finds the configuration file of a directory, given the names of the files
/// in it: the most preferred of the known configuration file names that is
/// there.
pub fn find_config_file(present: &Vec<String>) -> (found: Option<String>)
    ensures
        found.deep_view() == preferred_config_file(present@, 0),
{
    let names: [&'static str; 8] = [
        "rust-arch-viz.toml",
        "rust-arch-viz.yaml",
        "rust-arch-viz.yml",
        "rust-arch-viz.json",
        ".rust-arch-viz.toml",
        ".rust-arch-viz.yaml",
        ".rust-arch-viz.yml",
        ".rust-arch-viz.json",
    ];
    let mut k: usize = 0;
    while k < 8
        invariant
            k <= 8,
            names@.len() == 8,
            forall|j: int| 0 <= j < 8 ==> (#[trigger] names@[j])@ == config_file_names()[j],
            preferred_config_file(present@, k as int) == preferred_config_file(present@, 0),
        decreases 8 - k,
    {
        if is_present(present, names[k]) {
            return Some(names[k].to_owned());
        }
        k = k + 1;
    }
    None
}

} // verus!
