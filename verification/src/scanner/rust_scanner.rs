//! Selection of the files to analyse and extraction of the facts of each.

use crate::bindings::{
    all_matches, escaped, first_match, glob_matches, lowercase, random_id, regex_captures,
    regex_captures_iter, regex_escape, to_lowercase,
};
use crate::config::project_config::ProjectConfig;
use crate::scanner::dependency_analyzer::DependencyAnalyzer;
use crate::scanner::metrics_calculator::{is_metrics_of, MetricsCalculator};
use crate::scanner::snapshot::{
    build_architecture, distinct_ids, has_id, is_architecture_of, is_consistent, unused_id,
};
use crate::scanner::{ExtractionError, ProjectScanner, ScanError, SelectionError};
use crate::text::{
    char_occurrences, concat_chars, contains, contains_pattern, count_char, count_occurrences,
    occurrences, same_text, to_chars,
};
use crate::types::{
    ArchitectureMap, ArchitectureNode, EnumInfo, FunctionInfo, ModuleType, NodeStatus, StructInfo,
    Timestamp, TraitInfo,
};
use vstd::prelude::*;
use vstd::string::StringExecFns;

verus! {

/// The location of a file, with the parts of it that the analysis reads.
#[derive(Debug, Clone, PartialEq, Eq)]
pub struct SourcePath {
    /// The path as the directory walk gave it.
    pub full: String,
    /// The path relative to the root of the scan, where it lies under it.
    pub relative: Option<String>,
    /// The file name without its extension.
    pub file_stem: Option<String>,
    /// The extension of the file name, without the dot.
    pub extension: Option<String>,
}

/// A file met by the directory walk.
#[derive(Debug, Clone, PartialEq, Eq)]
pub struct FileEntry {
    pub path: SourcePath,
    /// The size in bytes, where the metadata could be read.
    pub size: Option<u64>,
}

/// A file that was read.
#[derive(Debug, Clone, PartialEq, Eq)]
pub struct SourceFile {
    pub path: SourcePath,
    pub content: String,
    pub last_modified: Timestamp,
}

impl SourcePath {
    /// The file is a source unit: its extension is `rs`.
    pub open spec fn is_rust_source(self) -> bool {
        self.extension matches Some(extension) && extension@ == "rs"@
    }

    /// A copy of this path.
    pub fn duplicate(&self) -> (copy: SourcePath)
        ensures
            copy == *self,
    {
        SourcePath {
            full: self.full.clone(),
            relative: match &self.relative {
                Some(r) => Some(r.clone()),
                None => None,
            },
            file_stem: match &self.file_stem {
                Some(s) => Some(s.clone()),
                None => None,
            },
            extension: match &self.extension {
                Some(e) => Some(e.clone()),
                None => None,
            },
        }
    }
}

/// A size is known and lies above the limit that is set.
pub open spec fn exceeds_limit(size: Option<u64>, max_file_size: Option<usize>) -> bool {
    size matches Some(bytes) && max_file_size matches Some(limit) && bytes > limit
}

/// A file is analysed when it is a source unit, no exclude pattern matches
/// it, the include patterns admit it, and its size is within the limit.
pub open spec fn is_selected(
    entry: FileEntry,
    excluded: bool,
    included: bool,
    max_file_size: Option<usize>,
) -> bool {
    entry.path.is_rust_source() && !excluded && included && !exceeds_limit(
        entry.size,
        max_file_size,
    )
}

/// The paths selected among the first `n` entries, in the order of the
/// entries, given for each entry whether an exclude pattern matches it and
/// whether the include patterns admit it.
pub open spec fn selection(
    entries: Seq<FileEntry>,
    excluded: Seq<bool>,
    included: Seq<bool>,
    max_file_size: Option<usize>,
    n: int,
) -> Seq<SourcePath>
    decreases n,
{
    if n <= 0 || n > entries.len() || n > excluded.len() || n > included.len() {
        Seq::empty()
    } else {
        let rest = selection(entries, excluded, included, max_file_size, n - 1);
        if is_selected(entries[n - 1], excluded[n - 1], included[n - 1], max_file_size) {
            rest.push(entries[n - 1].path)
        } else {
            rest
        }
    }
}

/// The smallest of three lengths.
pub open spec fn shortest(a: int, b: int, c: int) -> int {
    if a <= b && a <= c {
        a
    } else if b <= c {
        b
    } else {
        c
    }
}

/// Decides whether a file is analysed, given whether an exclude pattern
/// matches it and whether the include patterns admit it.
pub fn select_file(
    entry: &FileEntry,
    excluded: bool,
    included: bool,
    max_file_size: Option<usize>,
) -> (keep: bool)
    ensures
        keep == is_selected(*entry, excluded, included, max_file_size),
        excluded ==> !keep,
        exceeds_limit(entry.size, max_file_size) ==> !keep,
{
    let is_source = match &entry.path.extension {
        Some(extension) => same_text(extension.as_str(), "rs"),
        None => false,
    };
    let too_large = match (entry.size, max_file_size) {
        (Some(bytes), Some(limit)) => bytes > limit as u64,
        _ => false,
    };
    is_source && !excluded && included && !too_large
}

/// A file that an exclude pattern matches is left out, whatever the include
/// patterns say of it.
pub proof fn lemma_exclude_precedence(
    entry: FileEntry,
    included: bool,
    max_file_size: Option<usize>,
)
    ensures
        !is_selected(entry, true, included, max_file_size),
{
}

/// A file whose size exceeds the limit is left out, whatever the patterns
/// say of it.
pub proof fn lemma_size_limit(
    entry: FileEntry,
    excluded: bool,
    included: bool,
    max_file_size: Option<usize>,
)
    requires
        exceeds_limit(entry.size, max_file_size),
    ensures
        !is_selected(entry, excluded, included, max_file_size),
{
}

/// Every path of a selection is the path of an entry that is selected: a
/// source unit that no exclude pattern matches, that the include patterns
/// admit, and whose size does not exceed the limit.
pub proof fn lemma_selection_members(
    entries: Seq<FileEntry>,
    excluded: Seq<bool>,
    included: Seq<bool>,
    max_file_size: Option<usize>,
    n: int,
)
    ensures
        forall|k: int|
            0 <= k < selection(entries, excluded, included, max_file_size, n).len() ==> exists|
                i: int,
            |
                {
                    &&& 0 <= i < n
                    &&& i < entries.len()
                    &&& i < excluded.len()
                    &&& i < included.len()
                    &&& (#[trigger] entries[i]).path == (#[trigger] selection(
                        entries,
                        excluded,
                        included,
                        max_file_size,
                        n,
                    )[k])
                    &&& is_selected(entries[i], excluded[i], included[i], max_file_size)
                    &&& !excluded[i]
                    &&& !exceeds_limit(entries[i].size, max_file_size)
                },
    decreases n,
{
    if n <= 0 || n > entries.len() || n > excluded.len() || n > included.len() {
    } else {
        lemma_selection_members(entries, excluded, included, max_file_size, n - 1);
        let rest = selection(entries, excluded, included, max_file_size, n - 1);
        let all = selection(entries, excluded, included, max_file_size, n);
        assert forall|k: int| 0 <= k < all.len() implies exists|i: int|
            {
                &&& 0 <= i < n
                &&& i < entries.len()
                &&& i < excluded.len()
                &&& i < included.len()
                &&& (#[trigger] entries[i]).path == (#[trigger] all[k])
                &&& is_selected(entries[i], excluded[i], included[i], max_file_size)
                &&& !excluded[i]
                &&& !exceeds_limit(entries[i].size, max_file_size)
            } by {
            if k < rest.len() {
                assert(all[k] == rest[k]);
                let i = choose|i: int|
                    {
                        &&& 0 <= i < n - 1
                        &&& i < entries.len()
                        &&& i < excluded.len()
                        &&& i < included.len()
                        &&& (#[trigger] entries[i]).path == (#[trigger] rest[k])
                        &&& is_selected(entries[i], excluded[i], included[i], max_file_size)
                        &&& !excluded[i]
                        &&& !exceeds_limit(entries[i].size, max_file_size)
                    };
                assert(entries[i].path == all[k]);
            } else {
                assert(entries[n - 1].path == all[k]);
            }
        }
    }
}

/// Picks the files to analyse among the entries, in their order, given for
/// each entry whether an exclude pattern matches it and whether the include
/// patterns admit it. Entries without both verdicts are left out.
pub fn select_files(
    entries: &Vec<FileEntry>,
    excluded: &Vec<bool>,
    included: &Vec<bool>,
    max_file_size: Option<usize>,
) -> (files: Vec<SourcePath>)
    ensures
        files@ == selection(
            entries@,
            excluded@,
            included@,
            max_file_size,
            shortest(entries@.len() as int, excluded@.len() as int, included@.len() as int),
        ),
{
    let mut n = entries.len();
    if excluded.len() < n {
        n = excluded.len();
    }
    if included.len() < n {
        n = included.len();
    }
    let mut files: Vec<SourcePath> = Vec::new();
    let mut i: usize = 0;
    while i < n
        invariant
            i <= n,
            n <= entries.len(),
            n <= excluded.len(),
            n <= included.len(),
            files@ == selection(entries@, excluded@, included@, max_file_size, i as int),
        decreases n - i,
    {
        if select_file(&entries[i], excluded[i], included[i], max_file_size) {
            files.push(entries[i].path.duplicate());
        }
        i = i + 1;
    }
    files
}

/// A module declaration, public or not; the name is the first or the second
/// group.
pub const MODULE_DECLARATION: &'static str = r"pub\s+mod\s+(\w+)|mod\s+(\w+)";

/// A reference rooted at the crate; the path referred to is the first group.
pub const CRATE_REFERENCE: &'static str = r"use\s+crate::([^;]+)";

/// A declaration of a sub-module; its name is the first group.
pub const SUBMODULE_DECLARATION: &'static str = r"mod\s+(\w+)";

/// The header of a function; its name is the first group.
pub const FUNCTION_HEADER: &'static str = r"(?:pub\s+)?(?:async\s+)?fn\s+(\w+)\s*\([^)]*\)";

/// The header of a struct; its name is the first group.
pub const STRUCT_HEADER: &'static str = r"(?:pub\s+)?struct\s+(\w+)";

/// The header of an enum; its name is the first group.
pub const ENUM_HEADER: &'static str = r"(?:pub\s+)?enum\s+(\w+)";

/// The header of a trait; its name is the first group.
pub const TRAIT_HEADER: &'static str = r"(?:pub\s+)?trait\s+(\w+)";

/// The capture group `i` of a match; none where the match has no such group.
pub open spec fn group(groups: Seq<Option<Seq<char>>>, i: int) -> Option<Seq<char>> {
    if 0 <= i < groups.len() {
        groups[i]
    } else {
        None
    }
}

/// The text of group `i` in each of the matches where the group took part,
/// in the order of the matches.
pub open spec fn group_texts(found: Seq<Seq<Option<Seq<char>>>>, i: int) -> Seq<Seq<char>>
    decreases found.len(),
{
    if found.len() == 0 {
        Seq::empty()
    } else {
        let rest = group_texts(found.drop_last(), i);
        match group(found.last(), i) {
            Some(text) => rest.push(text),
            None => rest,
        }
    }
}

/// The name of a module: the name in the first module declaration found in
/// its text, else the stem of its file name, else `unknown`.
pub open spec fn module_name(
    file_stem: Option<Seq<char>>,
    declaration: Option<Seq<Option<Seq<char>>>>,
) -> Seq<char> {
    let declared = match declaration {
        Some(groups) => match group(groups, 1) {
            Some(name) => Some(name),
            None => group(groups, 2),
        },
        None => None,
    };
    match (declared, file_stem) {
        (Some(name), _) => name,
        (None, Some(stem)) => stem,
        (None, None) => "unknown"@,
    }
}

/// The kind of a module, from its path in lower case and its text. The path
/// decides first, by the first of these that it holds: `test`; `example`;
/// `bench`; `config` or `settings`; `api` or `routes`; `db` or `database`;
/// `net`; `auth` or `security`; `log`; `monitor` or `metrics`. Then the text
/// decides: `async` with `tokio`; `serde` with `Serialize`; `trait` with
/// `async`. Every other module is `Core`.
pub open spec fn kind_of(lower_path: Seq<char>, content: Seq<char>) -> ModuleType {
    if contains(lower_path, "test"@) {
        ModuleType::Testing
    } else if contains(lower_path, "example"@) {
        ModuleType::Utilities
    } else if contains(lower_path, "bench"@) {
        ModuleType::Performance
    } else if contains(lower_path, "config"@) || contains(lower_path, "settings"@) {
        ModuleType::Configuration
    } else if contains(lower_path, "api"@) || contains(lower_path, "routes"@) {
        ModuleType::API
    } else if contains(lower_path, "db"@) || contains(lower_path, "database"@) {
        ModuleType::Database
    } else if contains(lower_path, "net"@) {
        ModuleType::Network
    } else if contains(lower_path, "auth"@) || contains(lower_path, "security"@) {
        ModuleType::Security
    } else if contains(lower_path, "log"@) {
        ModuleType::Logging
    } else if contains(lower_path, "monitor"@) || contains(lower_path, "metrics"@) {
        ModuleType::Monitoring
    } else if contains(content, "async"@) && contains(content, "tokio"@) {
        ModuleType::Execution
    } else if contains(content, "serde"@) && contains(content, "Serialize"@) {
        ModuleType::DataProcessing
    } else if contains(content, "trait"@) && contains(content, "async"@) {
        ModuleType::Integration
    } else {
        ModuleType::Core
    }
}

/// The raw dependencies of a module: the paths of its crate references, then
/// the names of its sub-module declarations, each occurrence kept.
pub open spec fn dependency_names(
    references: Seq<Seq<Option<Seq<char>>>>,
    submodules: Seq<Seq<Option<Seq<char>>>>,
) -> Seq<Seq<char>> {
    group_texts(references, 1) + group_texts(submodules, 1)
}

/// The expression that finds the parameter list of the function `name`; the
/// list is the first group.
pub open spec fn parameter_pattern(name: Seq<char>) -> Seq<char> {
    r"fn\s+"@ + escaped(name) + r"\s*\(([^)]*)\)"@
}

/// `n` capped at the largest `usize`.
pub open spec fn saturate_usize(n: int) -> usize {
    if n >= usize::MAX {
        usize::MAX
    } else if n <= 0 {
        0
    } else {
        n as usize
    }
}

/// The number of parameters read off the match of a parameter pattern: the
/// pieces into which commas cut the list, and zero without a match.
pub open spec fn parameter_count(list: Option<Seq<Option<Seq<char>>>>) -> nat {
    match list {
        Some(groups) => match group(groups, 1) {
            Some(parameters) => char_occurrences(parameters, ',') + 1,
            None => 0,
        },
        None => 0,
    }
}

/// `f` records the function `name` of a module with the text `content`,
/// whose parameter list was matched as `list`.
pub open spec fn describes_function(
    f: FunctionInfo,
    content: Seq<char>,
    name: Seq<char>,
    list: Option<Seq<Option<Seq<char>>>>,
) -> bool {
    &&& f.name@ == name
    &&& f.is_public == contains(content, "pub fn "@ + name)
    &&& f.is_async == contains(content, "async fn "@ + name)
    &&& f.parameter_count == saturate_usize(parameter_count(list) as int)
    &&& f.complexity == 10
    &&& f.lines_of_code == 1
    &&& f.documentation is None
    &&& f.attributes@.len() == 0
}

/// `s` records the struct `name` of a module with the text `content`.
pub open spec fn describes_struct(s: StructInfo, content: Seq<char>, name: Seq<char>) -> bool {
    &&& s.name@ == name
    &&& s.is_public == contains(content, "pub struct "@ + name)
    &&& s.field_count == occurrences(content, "struct "@ + name)
    &&& s.derives@.len() == 0
    &&& s.documentation is None
    &&& s.attributes@.len() == 0
    &&& s.generics@.len() == 0
}

/// `e` records the enum `name` of a module with the text `content`.
pub open spec fn describes_enum(e: EnumInfo, content: Seq<char>, name: Seq<char>) -> bool {
    &&& e.name@ == name
    &&& e.is_public == contains(content, "pub enum "@ + name)
    &&& e.variant_count == occurrences(content, "enum "@ + name)
    &&& e.derives@.len() == 0
    &&& e.documentation is None
    &&& e.attributes@.len() == 0
    &&& e.generics@.len() == 0
}

/// `t` records the trait `name` of a module with the text `content`.
pub open spec fn describes_trait(t: TraitInfo, content: Seq<char>, name: Seq<char>) -> bool {
    &&& t.name@ == name
    &&& t.is_public == contains(content, "pub trait "@ + name)
    &&& t.method_count == occurrences(content, "trait "@ + name)
    &&& t.documentation is None
    &&& t.attributes@.len() == 0
    &&& t.generics@.len() == 0
    &&& t.supertraits@.len() == 0
}

/// Picks the name of a module, given the stem of its file name and the first
/// module declaration matched in its text.
pub fn module_name_from(
    file_stem: &Option<String>,
    declaration: &Option<Vec<Option<String>>>,
) -> (name: String)
    ensures
        name@ == module_name(file_stem.deep_view(), declaration.deep_view()),
{
    if let Some(groups) = declaration {
        assert(declaration.deep_view() == Some(groups.deep_view()));
        if groups.len() > 1 {
            if let Some(name) = &groups[1] {
                assert(groups.deep_view()[1] == Some(name@));
                return name.clone();
            }
            assert(groups.deep_view()[1].is_none());
        }
        if groups.len() > 2 {
            if let Some(name) = &groups[2] {
                assert(groups.deep_view()[2] == Some(name@));
                return name.clone();
            }
            assert(groups.deep_view()[2].is_none());
        }
    }
    match file_stem {
        Some(stem) => stem.clone(),
        None => "unknown".to_owned(),
    }
}

/// Decides the kind of a module from its path in lower case and its text.
pub fn classify_module(lower_path: &str, content: &str) -> (kind: ModuleType)
    ensures
        kind == kind_of(lower_path@, content@),
{
    let path = to_chars(lower_path);
    let text = to_chars(content);
    if contains_pattern(&path, &to_chars("test")) {
        ModuleType::Testing
    } else if contains_pattern(&path, &to_chars("example")) {
        ModuleType::Utilities
    } else if contains_pattern(&path, &to_chars("bench")) {
        ModuleType::Performance
    } else if contains_pattern(&path, &to_chars("config")) || contains_pattern(
        &path,
        &to_chars("settings"),
    ) {
        ModuleType::Configuration
    } else if contains_pattern(&path, &to_chars("api")) || contains_pattern(
        &path,
        &to_chars("routes"),
    ) {
        ModuleType::API
    } else if contains_pattern(&path, &to_chars("db")) || contains_pattern(
        &path,
        &to_chars("database"),
    ) {
        ModuleType::Database
    } else if contains_pattern(&path, &to_chars("net")) {
        ModuleType::Network
    } else if contains_pattern(&path, &to_chars("auth")) || contains_pattern(
        &path,
        &to_chars("security"),
    ) {
        ModuleType::Security
    } else if contains_pattern(&path, &to_chars("log")) {
        ModuleType::Logging
    } else if contains_pattern(&path, &to_chars("monitor")) || contains_pattern(
        &path,
        &to_chars("metrics"),
    ) {
        ModuleType::Monitoring
    } else if contains_pattern(&text, &to_chars("async")) && contains_pattern(
        &text,
        &to_chars("tokio"),
    ) {
        ModuleType::Execution
    } else if contains_pattern(&text, &to_chars("serde")) && contains_pattern(
        &text,
        &to_chars("Serialize"),
    ) {
        ModuleType::DataProcessing
    } else if contains_pattern(&text, &to_chars("trait")) && contains_pattern(
        &text,
        &to_chars("async"),
    ) {
        ModuleType::Integration
    } else {
        ModuleType::Core
    }
}

/// Appends to `out` the text of group `i` of each match where the group took
/// part.
pub fn collect_group(found: &Vec<Vec<Option<String>>>, i: usize, out: &mut Vec<String>)
    ensures
        final(out).deep_view() == old(out).deep_view() + group_texts(found.deep_view(), i as int),
{
    let ghost before = out.deep_view();
    let mut k: usize = 0;
    assert(found.deep_view().take(0) =~= Seq::empty());
    assert(out.deep_view() =~= before + Seq::empty());
    while k < found.len()
        invariant
            k <= found.len(),
            out.deep_view() == before + group_texts(found.deep_view().take(k as int), i as int),
        decreases found.len() - k,
    {
        let ghost prefix = found.deep_view().take(k as int);
        let ghost next = found.deep_view().take(k + 1);
        let ghost so_far = out.deep_view();
        assert(next.drop_last() =~= prefix);
        assert(next.last() == found@[k as int].deep_view());
        if i < found[k].len() {
            if let Some(text) = &found[k][i] {
                assert(found@[k as int].deep_view()[i as int] == Some(text@));
                out.push(text.clone());
                assert(out.deep_view() =~= so_far.push(text@));
            } else {
                assert(found@[k as int].deep_view()[i as int].is_none());
            }
        }
        k = k + 1;
    }
    assert(found.deep_view().take(found.len() as int) =~= found.deep_view());
}

/// Lists the raw dependencies of a module, given the matches of its crate
/// references and of its sub-module declarations.
pub fn dependencies_from(
    references: &Vec<Vec<Option<String>>>,
    submodules: &Vec<Vec<Option<String>>>,
) -> (dependencies: Vec<String>)
    ensures
        dependencies.deep_view() == dependency_names(
            references.deep_view(),
            submodules.deep_view(),
        ),
{
    let mut dependencies: Vec<String> = Vec::new();
    assert(dependencies.deep_view() =~= Seq::empty());
    collect_group(references, 1, &mut dependencies);
    collect_group(submodules, 1, &mut dependencies);
    assert(dependencies.deep_view() =~= group_texts(references.deep_view(), 1) + group_texts(
        submodules.deep_view(),
        1,
    ));
    dependencies
}

/// Reads the number of parameters off the match of a parameter pattern.
pub fn count_parameters(list: &Option<Vec<Option<String>>>) -> (n: usize)
    ensures
        n == saturate_usize(parameter_count(list.deep_view()) as int),
{
    if let Some(groups) = list {
        assert(list.deep_view() == Some(groups.deep_view()));
        if groups.len() > 1 {
            if let Some(parameters) = &groups[1] {
                assert(groups.deep_view()[1] == Some(parameters@));
                let chars = to_chars(parameters.as_str());
                assert(chars@.subrange(0, chars@.len() as int) =~= chars@);
                let commas = count_char(&chars, 0, chars.len(), ',');
                return if commas == usize::MAX {
                    commas
                } else {
                    commas + 1
                };
            }
            assert(groups.deep_view()[1].is_none());
        }
    }
    0
}

/// Records the function `name` of a module with the text `content`, given
/// the match of its parameter list.
pub fn function_info(content: &Vec<char>, name: &str, list: &Option<Vec<Option<String>>>) -> (f:
    FunctionInfo)
    ensures
        describes_function(f, content@, name@, list.deep_view()),
{
    FunctionInfo {
        name: name.to_owned(),
        is_public: contains_pattern(content, &concat_chars("pub fn ", name)),
        is_async: contains_pattern(content, &concat_chars("async fn ", name)),
        parameter_count: count_parameters(list),
        complexity: 10,
        lines_of_code: 1,
        documentation: None,
        attributes: Vec::new(),
    }
}

/// Records the struct `name` of a module with the text `content`.
pub fn struct_info(content: &Vec<char>, name: &str) -> (s: StructInfo)
    ensures
        describes_struct(s, content@, name@),
{
    StructInfo {
        name: name.to_owned(),
        is_public: contains_pattern(content, &concat_chars("pub struct ", name)),
        field_count: count_occurrences(content, &concat_chars("struct ", name)),
        derives: Vec::new(),
        documentation: None,
        attributes: Vec::new(),
        generics: Vec::new(),
    }
}

/// Records the enum `name` of a module with the text `content`.
pub fn enum_info(content: &Vec<char>, name: &str) -> (e: EnumInfo)
    ensures
        describes_enum(e, content@, name@),
{
    EnumInfo {
        name: name.to_owned(),
        is_public: contains_pattern(content, &concat_chars("pub enum ", name)),
        variant_count: count_occurrences(content, &concat_chars("enum ", name)),
        derives: Vec::new(),
        documentation: None,
        attributes: Vec::new(),
        generics: Vec::new(),
    }
}

/// Records the trait `name` of a module with the text `content`.
pub fn trait_info(content: &Vec<char>, name: &str) -> (t: TraitInfo)
    ensures
        describes_trait(t, content@, name@),
{
    TraitInfo {
        name: name.to_owned(),
        is_public: contains_pattern(content, &concat_chars("pub trait ", name)),
        method_count: count_occurrences(content, &concat_chars("trait ", name)),
        documentation: None,
        attributes: Vec::new(),
        generics: Vec::new(),
        supertraits: Vec::new(),
    }
}

/// The names declared by the matches of a header pattern.
pub fn declared_names(found: &Vec<Vec<Option<String>>>) -> (names: Vec<String>)
    ensures
        names.deep_view() == group_texts(found.deep_view(), 1),
{
    let mut names: Vec<String> = Vec::new();
    assert(names.deep_view() =~= Seq::empty());
    collect_group(found, 1, &mut names);
    assert(names.deep_view() =~= group_texts(found.deep_view(), 1));
    names
}

/// `fs` records, one for one and in order, the functions `names` of a module
/// with the text `content`.
pub open spec fn describes_functions(
    fs: Seq<FunctionInfo>,
    content: Seq<char>,
    names: Seq<Seq<char>>,
) -> bool {
    &&& fs.len() == names.len()
    &&& forall|i: int|
        0 <= i < fs.len() ==> describes_function(
            #[trigger] fs[i],
            content,
            names[i],
            first_match(parameter_pattern(names[i]), content),
        )
}

/// `ss` records, one for one and in order, the structs `names` of a module
/// with the text `content`.
pub open spec fn describes_structs(
    ss: Seq<StructInfo>,
    content: Seq<char>,
    names: Seq<Seq<char>>,
) -> bool {
    &&& ss.len() == names.len()
    &&& forall|i: int| 0 <= i < ss.len() ==> describes_struct(#[trigger] ss[i], content, names[i])
}

/// `es` records, one for one and in order, the enums `names` of a module
/// with the text `content`.
pub open spec fn describes_enums(
    es: Seq<EnumInfo>,
    content: Seq<char>,
    names: Seq<Seq<char>>,
) -> bool {
    &&& es.len() == names.len()
    &&& forall|i: int| 0 <= i < es.len() ==> describes_enum(#[trigger] es[i], content, names[i])
}

/// `ts` records, one for one and in order, the traits `names` of a module
/// with the text `content`.
pub open spec fn describes_traits(
    ts: Seq<TraitInfo>,
    content: Seq<char>,
    names: Seq<Seq<char>>,
) -> bool {
    &&& ts.len() == names.len()
    &&& forall|i: int| 0 <= i < ts.len() ==> describes_trait(#[trigger] ts[i], content, names[i])
}

/// Records the functions of a module with the text `content`, given the
/// matches of the function headers in it. The parameter list of each is
/// searched for in the text.
pub fn functions_from(content: &str, found: &Vec<Vec<Option<String>>>) -> (functions: Vec<
    FunctionInfo,
>)
    ensures
        describes_functions(functions@, content@, group_texts(found.deep_view(), 1)),
{
    let chars = to_chars(content);
    let names = declared_names(found);
    let mut functions: Vec<FunctionInfo> = Vec::new();
    let mut i: usize = 0;
    while i < names.len()
        invariant
            i <= names.len(),
            chars@ == content@,
            functions@.len() == i,
            forall|j: int|
                0 <= j < i ==> describes_function(
                    #[trigger] functions@[j],
                    content@,
                    names.deep_view()[j],
                    first_match(parameter_pattern(names.deep_view()[j]), content@),
                ),
        decreases names.len() - i,
    {
        let name = names[i].as_str();
        let quoted = regex_escape(name);
        let mut pattern = String::from_str(r"fn\s+");
        pattern.append(quoted.as_str());
        pattern.append(r"\s*\(([^)]*)\)");
        let list = regex_captures(pattern.as_str(), content);
        functions.push(function_info(&chars, name, &list));
        i = i + 1;
    }
    functions
}

/// Records the structs of a module with the text `content`, given the
/// matches of the struct headers in it.
pub fn structs_from(content: &str, found: &Vec<Vec<Option<String>>>) -> (structs: Vec<StructInfo>)
    ensures
        describes_structs(structs@, content@, group_texts(found.deep_view(), 1)),
{
    let chars = to_chars(content);
    let names = declared_names(found);
    let mut structs: Vec<StructInfo> = Vec::new();
    let mut i: usize = 0;
    while i < names.len()
        invariant
            i <= names.len(),
            chars@ == content@,
            structs@.len() == i,
            forall|j: int|
                0 <= j < i ==> describes_struct(
                    #[trigger] structs@[j],
                    content@,
                    names.deep_view()[j],
                ),
        decreases names.len() - i,
    {
        structs.push(struct_info(&chars, names[i].as_str()));
        i = i + 1;
    }
    structs
}

/// Records the enums of a module with the text `content`, given the matches
/// of the enum headers in it.
pub fn enums_from(content: &str, found: &Vec<Vec<Option<String>>>) -> (enums: Vec<EnumInfo>)
    ensures
        describes_enums(enums@, content@, group_texts(found.deep_view(), 1)),
{
    let chars = to_chars(content);
    let names = declared_names(found);
    let mut enums: Vec<EnumInfo> = Vec::new();
    let mut i: usize = 0;
    while i < names.len()
        invariant
            i <= names.len(),
            chars@ == content@,
            enums@.len() == i,
            forall|j: int|
                0 <= j < i ==> describes_enum(#[trigger] enums@[j], content@, names.deep_view()[j]),
        decreases names.len() - i,
    {
        enums.push(enum_info(&chars, names[i].as_str()));
        i = i + 1;
    }
    enums
}

/// Records the traits of a module with the text `content`, given the matches
/// of the trait headers in it.
pub fn traits_from(content: &str, found: &Vec<Vec<Option<String>>>) -> (traits: Vec<TraitInfo>)
    ensures
        describes_traits(traits@, content@, group_texts(found.deep_view(), 1)),
{
    let chars = to_chars(content);
    let names = declared_names(found);
    let mut traits: Vec<TraitInfo> = Vec::new();
    let mut i: usize = 0;
    while i < names.len()
        invariant
            i <= names.len(),
            chars@ == content@,
            traits@.len() == i,
            forall|j: int|
                0 <= j < i ==> describes_trait(
                    #[trigger] traits@[j],
                    content@,
                    names.deep_view()[j],
                ),
        decreases names.len() - i,
    {
        traits.push(trait_info(&chars, names[i].as_str()));
        i = i + 1;
    }
    traits
}

/// `node` is the module read from `file`, as it is before the graph is
/// assembled. Its id is not fixed.
pub open spec fn describes_file(node: ArchitectureNode, file: SourceFile) -> bool {
    let content = file.content@;
    &&& node.name@ == module_name(
        file.path.file_stem.deep_view(),
        first_match(MODULE_DECLARATION@, content),
    )
    &&& node.module_type == kind_of(lowercase(file.path.full@), content)
    &&& node.file_path@ == match file.path.relative {
        Some(relative) => relative@,
        None => file.path.full@,
    }
    &&& node.dependencies.deep_view() == dependency_names(
        all_matches(CRATE_REFERENCE@, content),
        all_matches(SUBMODULE_DECLARATION@, content),
    )
    &&& node.dependents@.len() == 0
    &&& node.status == NodeStatus::Active
    &&& is_metrics_of(node.metrics, content)
    &&& node.last_modified == file.last_modified
    &&& describes_functions(
        node.functions@,
        content,
        group_texts(all_matches(FUNCTION_HEADER@, content), 1),
    )
    &&& describes_structs(
        node.structs@,
        content,
        group_texts(all_matches(STRUCT_HEADER@, content), 1),
    )
    &&& describes_enums(node.enums@, content, group_texts(all_matches(ENUM_HEADER@, content), 1))
    &&& describes_traits(
        node.traits@,
        content,
        group_texts(all_matches(TRAIT_HEADER@, content), 1),
    )
    &&& node.position is None
}

/// What became of one selected file: it was read, or it could not be.
pub type ReadOutcome = Result<SourceFile, ExtractionError>;

/// What the walk of a root came to: the selected files, each read or not, or
/// the reason for which the root could not be walked.
pub type WalkOutcome = Result<Vec<ReadOutcome>, SelectionError>;

/// `parsed` holds, for each file that was read among `outcomes`, a module of
/// that file, at the index of the file.
pub open spec fn is_parse_of(parsed: Seq<ArchitectureNode>, outcomes: Seq<ReadOutcome>) -> bool {
    &&& parsed.len() == outcomes.len()
    &&& forall|k: int|
        0 <= k < outcomes.len() && (#[trigger] outcomes[k]) is Ok ==> describes_file(
            parsed[k],
            outcomes[k]->Ok_0,
        )
}

/// No two of the modules parsed from files that were read share an id.
pub open spec fn parsed_ids_differ(
    parsed: Seq<ArchitectureNode>,
    outcomes: Seq<ReadOutcome>,
) -> bool {
    forall|i: int, j: int|
        0 <= i < j < parsed.len() && j < outcomes.len() && outcomes[i] is Ok && outcomes[j] is Ok
            ==> (#[trigger] parsed[i]).id@ != (#[trigger] parsed[j]).id@
}

/// Number of files that were read among the first `n` outcomes.
pub open spec fn read_count(outcomes: Seq<ReadOutcome>, n: int) -> nat
    decreases n,
{
    if n <= 0 || n > outcomes.len() {
        0
    } else {
        read_count(outcomes, n - 1) + if outcomes[n - 1] is Ok {
            1nat
        } else {
            0nat
        }
    }
}

/// The modules of the first `n` outcomes: the module of each file that was
/// read, in the order of the files.
pub open spec fn modules_of(
    outcomes: Seq<ReadOutcome>,
    parsed: Seq<ArchitectureNode>,
    n: int,
) -> Seq<ArchitectureNode>
    decreases n,
{
    if n <= 0 || n > outcomes.len() || n > parsed.len() {
        Seq::empty()
    } else if outcomes[n - 1] is Ok {
        modules_of(outcomes, parsed, n - 1).push(parsed[n - 1])
    } else {
        modules_of(outcomes, parsed, n - 1)
    }
}

/// `result` is what the scan of a walk at a time comes to. A root that
/// could not be walked fails the scan with the reason of the walk. Otherwise
/// the scan gives the architecture map of the modules of the files that were
/// read, one module for each file and in the order of the files, no two with
/// the same id; a file that could not be read is left out.
pub open spec fn is_scan_of(
    result: Result<ArchitectureMap, ScanError>,
    walk: WalkOutcome,
    last_scan: Timestamp,
) -> bool {
    match (walk, result) {
        (Err(reason), Err(error)) => error == ScanError::Selection(reason),
        (Ok(outcomes), Ok(map)) => {
            &&& exists|parsed: Seq<ArchitectureNode>|
                #![trigger is_parse_of(parsed, outcomes@)]
                {
                    &&& is_parse_of(parsed, outcomes@)
                    &&& parsed_ids_differ(parsed, outcomes@)
                    &&& is_architecture_of(
                        map,
                        modules_of(outcomes@, parsed, outcomes@.len() as int),
                        last_scan,
                    )
                }
            &&& is_consistent(map)
            &&& distinct_ids(map.nodes@)
            &&& map.last_scan == last_scan
            &&& map.total_modules == read_count(outcomes@, outcomes@.len() as int)
        },
        _ => false,
    }
}

/// Two modules of the same file agree in everything but their ids: in
/// name, kind, path, dependencies, status, metrics, time of change, position,
/// and in the functions, structs, enums and traits recorded.
pub proof fn lemma_module_is_determined(a: ArchitectureNode, b: ArchitectureNode, file: SourceFile)
    requires
        describes_file(a, file),
        describes_file(b, file),
    ensures
        a.name@ == b.name@,
        a.module_type == b.module_type,
        a.file_path@ == b.file_path@,
        a.dependencies.deep_view() == b.dependencies.deep_view(),
        a.dependents.deep_view() == b.dependents.deep_view(),
        a.status == b.status,
        a.metrics == b.metrics,
        a.last_modified == b.last_modified,
        a.position == b.position,
        a.functions@.len() == b.functions@.len(),
        forall|i: int|
            0 <= i < a.functions@.len() ==> {
                &&& (#[trigger] a.functions@[i]).name@ == b.functions@[i].name@
                &&& a.functions@[i].is_public == b.functions@[i].is_public
                &&& a.functions@[i].is_async == b.functions@[i].is_async
                &&& a.functions@[i].parameter_count == b.functions@[i].parameter_count
                &&& a.functions@[i].complexity == b.functions@[i].complexity
                &&& a.functions@[i].lines_of_code == b.functions@[i].lines_of_code
            },
        a.structs@.len() == b.structs@.len(),
        forall|i: int|
            0 <= i < a.structs@.len() ==> {
                &&& (#[trigger] a.structs@[i]).name@ == b.structs@[i].name@
                &&& a.structs@[i].is_public == b.structs@[i].is_public
                &&& a.structs@[i].field_count == b.structs@[i].field_count
            },
        a.enums@.len() == b.enums@.len(),
        forall|i: int|
            0 <= i < a.enums@.len() ==> {
                &&& (#[trigger] a.enums@[i]).name@ == b.enums@[i].name@
                &&& a.enums@[i].is_public == b.enums@[i].is_public
                &&& a.enums@[i].variant_count == b.enums@[i].variant_count
            },
        a.traits@.len() == b.traits@.len(),
        forall|i: int|
            0 <= i < a.traits@.len() ==> {
                &&& (#[trigger] a.traits@[i]).name@ == b.traits@[i].name@
                &&& a.traits@[i].is_public == b.traits@[i].is_public
                &&& a.traits@[i].method_count == b.traits@[i].method_count
            },
{
    assert(a.dependents.deep_view() =~= b.dependents.deep_view());
    assert forall|i: int| 0 <= i < a.functions@.len() implies {
        &&& (#[trigger] a.functions@[i]).name@ == b.functions@[i].name@
        &&& a.functions@[i].is_public == b.functions@[i].is_public
        &&& a.functions@[i].is_async == b.functions@[i].is_async
        &&& a.functions@[i].parameter_count == b.functions@[i].parameter_count
        &&& a.functions@[i].complexity == b.functions@[i].complexity
        &&& a.functions@[i].lines_of_code == b.functions@[i].lines_of_code
    } by {
        assert(b.functions@[i].name@ == a.functions@[i].name@);
    }
    assert forall|i: int| 0 <= i < a.structs@.len() implies {
        &&& (#[trigger] a.structs@[i]).name@ == b.structs@[i].name@
        &&& a.structs@[i].is_public == b.structs@[i].is_public
        &&& a.structs@[i].field_count == b.structs@[i].field_count
    } by {
        assert(b.structs@[i].name@ == a.structs@[i].name@);
    }
    assert forall|i: int| 0 <= i < a.enums@.len() implies {
        &&& (#[trigger] a.enums@[i]).name@ == b.enums@[i].name@
        &&& a.enums@[i].is_public == b.enums@[i].is_public
        &&& a.enums@[i].variant_count == b.enums@[i].variant_count
    } by {
        assert(b.enums@[i].name@ == a.enums@[i].name@);
    }
    assert forall|i: int| 0 <= i < a.traits@.len() implies {
        &&& (#[trigger] a.traits@[i]).name@ == b.traits@[i].name@
        &&& a.traits@[i].is_public == b.traits@[i].is_public
        &&& a.traits@[i].method_count == b.traits@[i].method_count
    } by {
        assert(b.traits@[i].name@ == a.traits@[i].name@);
    }
}

/// The modules of the first `n` outcomes depend on the parse of these
/// outcomes alone.
pub proof fn lemma_modules_of_prefix(
    outcomes: Seq<ReadOutcome>,
    parsed: Seq<ArchitectureNode>,
    longer: Seq<ArchitectureNode>,
    n: int,
)
    requires
        0 <= n <= parsed.len() <= longer.len(),
        n <= outcomes.len(),
        forall|k: int| 0 <= k < n ==> parsed[k] == longer[k],
    ensures
        modules_of(outcomes, parsed, n) == modules_of(outcomes, longer, n),
    decreases n,
{
    if n > 0 {
        lemma_modules_of_prefix(outcomes, parsed, longer, n - 1);
    }
}

/// Scanner for Rust projects.
pub struct ArchitectureScanner {
    pub project_path: String,
    pub config: ProjectConfig,
    pub dependency_analyzer: DependencyAnalyzer,
    pub metrics_calculator: MetricsCalculator,
}

impl ArchitectureScanner {
    /// A scanner for the project at a path, with a configuration.
    pub fn new(project_path: &str, config: ProjectConfig) -> (scanner: Self)
        ensures
            scanner.project_path@ == project_path@,
            scanner.config == config,
    {
        Self {
            dependency_analyzer: DependencyAnalyzer::new(),
            metrics_calculator: MetricsCalculator::new(),
            project_path: project_path.to_owned(),
            config,
        }
    }

    /// Tells whether some exclude pattern matches the path. Without exclude
    /// patterns none does.
    pub fn should_exclude_file(&self, path: &str) -> (excluded: bool)
        ensures
            self.config.scanning.exclude_patterns@.len() == 0 ==> !excluded,
    {
        let patterns = &self.config.scanning.exclude_patterns;
        let mut verdicts: Vec<bool> = Vec::new();
        let mut i: usize = 0;
        while i < patterns.len()
            invariant
                i <= patterns.len(),
                verdicts@.len() == i,
                patterns@ == self.config.scanning.exclude_patterns@,
            decreases patterns.len() - i,
        {
            verdicts.push(glob_matches(patterns[i].as_str(), path));
            i = i + 1;
        }
        matched_by_any(&verdicts)
    }

    /// Tells whether the include patterns admit the path: there are none, or
    /// one of them matches it.
    pub fn should_include_file(&self, path: &str) -> (included: bool)
        ensures
            self.config.scanning.include_patterns@.len() == 0 ==> included,
    {
        let patterns = &self.config.scanning.include_patterns;
        let mut verdicts: Vec<bool> = Vec::new();
        let mut i: usize = 0;
        while i < patterns.len()
            invariant
                i <= patterns.len(),
                verdicts@.len() == i,
                patterns@ == self.config.scanning.include_patterns@,
            decreases patterns.len() - i,
        {
            verdicts.push(glob_matches(patterns[i].as_str(), path));
            i = i + 1;
        }
        admitted_by(&verdicts)
    }

    /// Picks the files to analyse among those that the directory walk met,
    /// in the order of the walk: each entry is matched against the exclude
    /// and the include patterns, and the selection follows from the outcome.
    /// Without exclude patterns nothing is excluded, and without include
    /// patterns everything is admitted.
    pub fn find_rust_files(&self, entries: &Vec<FileEntry>) -> (files: Vec<SourcePath>)
        ensures
            exists|excluded: Seq<bool>, included: Seq<bool>|
                {
                    &&& excluded.len() == entries@.len()
                    &&& included.len() == entries@.len()
                    &&& #[trigger] selection(
                        entries@,
                        excluded,
                        included,
                        self.config.scanning.max_file_size,
                        entries@.len() as int,
                    ) == files@
                    &&& self.config.scanning.exclude_patterns@.len() == 0 ==> forall|i: int|
                        0 <= i < excluded.len() ==> !#[trigger] excluded[i]
                    &&& self.config.scanning.include_patterns@.len() == 0 ==> forall|i: int|
                        0 <= i < included.len() ==> #[trigger] included[i]
                },
    {
        let mut excluded: Vec<bool> = Vec::new();
        let mut included: Vec<bool> = Vec::new();
        let mut i: usize = 0;
        while i < entries.len()
            invariant
                i <= entries.len(),
                excluded@.len() == i,
                included@.len() == i,
                self.config.scanning.exclude_patterns@.len() == 0 ==> forall|j: int|
                    0 <= j < i ==> !#[trigger] excluded@[j],
                self.config.scanning.include_patterns@.len() == 0 ==> forall|j: int|
                    0 <= j < i ==> #[trigger] included@[j],
            decreases entries.len() - i,
        {
            let path = entries[i].path.full.as_str();
            excluded.push(self.should_exclude_file(path));
            included.push(self.should_include_file(path));
            i = i + 1;
        }
        select_files(entries, &excluded, &included, self.config.scanning.max_file_size)
    }

    /// Scans the files of a walk and returns the architecture map. A root
    /// that could not be walked fails the scan. A file that could not be read
    /// is left out and fails nothing. Each file that was read becomes a
    /// module under an id of its own: an id drawn at random, lengthened where
    /// an earlier module has it.
    pub fn scan(&self, walk: &WalkOutcome, last_scan: Timestamp) -> (result: Result<
        ArchitectureMap,
        ScanError,
    >)
        ensures
            is_scan_of(result, *walk, last_scan),
    {
        match walk {
            Err(reason) => Err(ScanError::Selection(*reason)),
            Ok(outcomes) => {
                let mut nodes: Vec<ArchitectureNode> = Vec::new();
                let ghost mut parsed: Seq<ArchitectureNode> = Seq::empty();
                let mut i: usize = 0;
                while i < outcomes.len()
                    invariant
                        i <= outcomes.len(),
                        distinct_ids(nodes@),
                        parsed.len() == i,
                        nodes@ == modules_of(outcomes@, parsed, i as int),
                        nodes@.len() == read_count(outcomes@, i as int),
                        forall|k: int|
                            0 <= k < i && (#[trigger] outcomes@[k]) is Ok ==> describes_file(
                                parsed[k],
                                outcomes@[k]->Ok_0,
                            ) && has_id(nodes@, parsed[k].id@),
                        forall|j: int, k: int|
                            0 <= j < k < i && outcomes@[j] is Ok && outcomes@[k] is Ok ==> (
                            #[trigger] parsed[j]).id@ != (#[trigger] parsed[k]).id@,
                    decreases outcomes.len() - i,
                {
                    let ghost before = parsed;
                    let ghost modules = nodes@;
                    match &outcomes[i] {
                        Ok(file) => {
                            let id = unused_id(&nodes, random_id());
                            let node = self.build_node(id, file);
                            proof {
                                parsed = parsed.push(node);
                            }
                            nodes.push(node);
                            proof {
                                assert forall|k: int|
                                    0 <= k < i + 1 && (
                                    #[trigger] outcomes@[k]) is Ok implies has_id(
                                    nodes@,
                                    parsed[k].id@,
                                ) by {
                                    if k < i {
                                        let m = choose|m: int|
                                            0 <= m < modules.len() && (#[trigger] modules[m]).id@
                                                == before[k].id@;
                                        assert(nodes@[m].id@ == parsed[k].id@);
                                    } else {
                                        assert(nodes@[modules.len() as int].id@ == parsed[k].id@);
                                    }
                                }
                            }
                        },
                        Err(_) => {
                            proof {
                                parsed = parsed.push(arbitrary());
                            }
                        },
                    }
                    proof {
                        lemma_modules_of_prefix(outcomes@, before, parsed, i as int);
                    }
                    i = i + 1;
                }
                let map = build_architecture(nodes, last_scan);
                assert(is_parse_of(parsed, outcomes@));
                assert(parsed_ids_differ(parsed, outcomes@));
                Ok(map)
            },
        }
    }

    /// Builds the module of a file that was read, under a fresh random id.
    pub fn parse_rust_file(&self, file: &SourceFile) -> (node: ArchitectureNode)
        ensures
            describes_file(node, *file),
    {
        self.build_node(random_id(), file)
    }

    /// Builds the module of a file that was read, under the id given.
    pub fn build_node(&self, id: String, file: &SourceFile) -> (node: ArchitectureNode)
        ensures
            node.id == id,
            describes_file(node, *file),
    {
        let content = file.content.as_str();
        ArchitectureNode {
            id,
            name: self.extract_module_name(&file.path, content),
            module_type: self.determine_module_type(&file.path, content),
            file_path: match &file.path.relative {
                Some(relative) => relative.clone(),
                None => file.path.full.clone(),
            },
            dependencies: self.extract_dependencies(content),
            dependents: Vec::new(),
            status: NodeStatus::Active,
            metrics: self.metrics_calculator.calculate_node_metrics(content),
            last_modified: file.last_modified,
            functions: self.extract_functions(content),
            structs: self.extract_structs(content),
            enums: self.extract_enums(content),
            traits: self.extract_traits(content),
            position: None,
        }
    }

    /// Extracts the module name from the text, falling back on the file
    /// name.
    pub fn extract_module_name(&self, file_path: &SourcePath, content: &str) -> (name: String)
        ensures
            name@ == module_name(
                file_path.file_stem.deep_view(),
                first_match(MODULE_DECLARATION@, content@),
            ),
    {
        module_name_from(&file_path.file_stem, &regex_captures(MODULE_DECLARATION, content))
    }

    /// Determines the kind of a module from its path and its text.
    pub fn determine_module_type(&self, file_path: &SourcePath, content: &str) -> (kind: ModuleType)
        ensures
            kind == kind_of(lowercase(file_path.full@), content@),
    {
        let lower = to_lowercase(file_path.full.as_str());
        classify_module(lower.as_str(), content)
    }

    /// Extracts the raw dependencies from the text.
    pub fn extract_dependencies(&self, content: &str) -> (dependencies: Vec<String>)
        ensures
            dependencies.deep_view() == dependency_names(
                all_matches(CRATE_REFERENCE@, content@),
                all_matches(SUBMODULE_DECLARATION@, content@),
            ),
    {
        dependencies_from(
            &regex_captures_iter(CRATE_REFERENCE, content),
            &regex_captures_iter(SUBMODULE_DECLARATION, content),
        )
    }

    /// Extracts the functions from the text.
    pub fn extract_functions(&self, content: &str) -> (functions: Vec<FunctionInfo>)
        ensures
            describes_functions(
                functions@,
                content@,
                group_texts(all_matches(FUNCTION_HEADER@, content@), 1),
            ),
    {
        functions_from(content, &regex_captures_iter(FUNCTION_HEADER, content))
    }

    /// Extracts the structs from the text.
    pub fn extract_structs(&self, content: &str) -> (structs: Vec<StructInfo>)
        ensures
            describes_structs(
                structs@,
                content@,
                group_texts(all_matches(STRUCT_HEADER@, content@), 1),
            ),
    {
        structs_from(content, &regex_captures_iter(STRUCT_HEADER, content))
    }

    /// Extracts the enums from the text.
    pub fn extract_enums(&self, content: &str) -> (enums: Vec<EnumInfo>)
        ensures
            describes_enums(enums@, content@, group_texts(all_matches(ENUM_HEADER@, content@), 1)),
    {
        enums_from(content, &regex_captures_iter(ENUM_HEADER, content))
    }

    /// Extracts the traits from the text.
    pub fn extract_traits(&self, content: &str) -> (traits: Vec<TraitInfo>)
        ensures
            describes_traits(
                traits@,
                content@,
                group_texts(all_matches(TRAIT_HEADER@, content@), 1),
            ),
    {
        traits_from(content, &regex_captures_iter(TRAIT_HEADER, content))
    }
}

/// One of the verdicts is a match.
pub open spec fn any_match(verdicts: Seq<bool>) -> bool {
    exists|i: int| 0 <= i < verdicts.len() && #[trigger] verdicts[i]
}

/// Patterns admit a path, given the verdict of each on it: there are no
/// patterns, or one of them matches.
pub open spec fn admits(verdicts: Seq<bool>) -> bool {
    verdicts.len() == 0 || any_match(verdicts)
}

/// Decides whether patterns exclude a path, given for each pattern whether
/// it matches the path: they do where any of them matches.
pub fn matched_by_any(verdicts: &Vec<bool>) -> (matched: bool)
    ensures
        matched == any_match(verdicts@),
{
    let mut i: usize = 0;
    while i < verdicts.len()
        invariant
            i <= verdicts.len(),
            forall|j: int| 0 <= j < i ==> !#[trigger] verdicts@[j],
        decreases verdicts.len() - i,
    {
        if verdicts[i] {
            return true;
        }
        i = i + 1;
    }
    false
}

/// Decides whether patterns admit a path, given for each pattern whether it
/// matches the path: they do where there are none, and where any of them
/// matches.
pub fn admitted_by(verdicts: &Vec<bool>) -> (admitted: bool)
    ensures
        admitted == admits(verdicts@),
{
    verdicts.len() == 0 || matched_by_any(verdicts)
}

impl ProjectScanner for ArchitectureScanner {
    fn scan(&self, walk: &WalkOutcome, last_scan: Timestamp) -> (result: Result<
        ArchitectureMap,
        ScanError,
    >)
        ensures
            is_scan_of(result, *walk, last_scan),
    {
        ArchitectureScanner::scan(self, walk, last_scan)
    }

    /// Scans anew; the earlier map is not used.
    fn scan_incremental(
        &self,
        walk: &WalkOutcome,
        last_scan: Timestamp,
        previous: Option<ArchitectureMap>,
    ) -> (result: Result<ArchitectureMap, ScanError>)
        ensures
            is_scan_of(result, *walk, last_scan),
    {
        ArchitectureScanner::scan(self, walk, last_scan)
    }
}

} // verus!
