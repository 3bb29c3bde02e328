use rust_architecture_visualizer::config::project_config::ProjectConfig;
use rust_architecture_visualizer::scanner::rust_scanner::{
    classify_module, collect_group, count_parameters, declared_names, dependencies_from,
    enum_info, enums_from, function_info, functions_from, module_name_from, struct_info,
    structs_from, trait_info, traits_from, ArchitectureScanner, SourceFile, SourcePath,
};
use rust_architecture_visualizer::types::{ModuleType, NodeStatus, Timestamp};

fn scanner() -> ArchitectureScanner {
    ArchitectureScanner::new("/p", ProjectConfig::default())
}

fn path(full: &str, stem: Option<&str>) -> SourcePath {
    SourcePath {
        full: full.to_string(),
        relative: None,
        file_stem: stem.map(|s| s.to_string()),
        extension: Some("rs".to_string()),
    }
}

fn groups(list: &[Option<&str>]) -> Vec<Option<String>> {
    list.iter().map(|g| g.map(|s| s.to_string())).collect()
}

fn chars(s: &str) -> Vec<char> {
    s.chars().collect()
}

#[test]
fn module_name_is_the_first_declaration() {
    let s = scanner();
    let p = path("/p/src/lib.rs", Some("lib"));
    assert_eq!(s.extract_module_name(&p, "pub mod alpha;\nmod beta;"), "alpha");
    assert_eq!(s.extract_module_name(&p, "mod beta;\npub mod alpha;"), "beta");
    assert_eq!(s.extract_module_name(&p, "xpub   mod\tgamma;"), "gamma");
    assert_eq!(s.extract_module_name(&p, "// see mod delta for more"), "delta");
}

#[test]
fn module_name_falls_back_on_the_file_stem() {
    let s = scanner();
    assert_eq!(s.extract_module_name(&path("/p/src/engine.rs", Some("engine")), "fn run() {}"), "engine");
    assert_eq!(s.extract_module_name(&path("/p/src/model.rs", Some("model")), "let model = 1;"), "model");
    assert_eq!(s.extract_module_name(&path("/p/src/x.rs", None), "fn run() {}"), "unknown");
    assert_eq!(s.extract_module_name(&path("/p/src/x.rs", None), ""), "unknown");
}

#[test]
fn module_name_from_matched_groups() {
    let stem = Some("lib".to_string());
    let first = Some(groups(&[Some("pub mod a"), Some("a"), None]));
    let second = Some(groups(&[Some("mod b"), None, Some("b")]));
    let both = Some(groups(&[Some("x"), Some("a"), Some("b")]));
    let neither = Some(groups(&[Some("x"), None, None]));
    let short = Some(groups(&[Some("x")]));
    assert_eq!(module_name_from(&stem, &first), "a");
    assert_eq!(module_name_from(&stem, &second), "b");
    assert_eq!(module_name_from(&stem, &both), "a");
    assert_eq!(module_name_from(&stem, &neither), "lib");
    assert_eq!(module_name_from(&stem, &short), "lib");
    assert_eq!(module_name_from(&stem, &None), "lib");
    assert_eq!(module_name_from(&None, &None), "unknown");
    assert_eq!(module_name_from(&None, &second), "b");
}

#[test]
fn kind_follows_the_path_first() {
    assert_eq!(classify_module("src/test_config.rs", ""), ModuleType::Testing);
    assert_eq!(classify_module("tests/it.rs", ""), ModuleType::Testing);
    assert_eq!(classify_module("examples/bench.rs", ""), ModuleType::Utilities);
    assert_eq!(classify_module("benches/config.rs", ""), ModuleType::Performance);
    assert_eq!(classify_module("src/config/api.rs", ""), ModuleType::Configuration);
    assert_eq!(classify_module("src/settings.rs", ""), ModuleType::Configuration);
    assert_eq!(classify_module("src/api_db.rs", ""), ModuleType::API);
    assert_eq!(classify_module("src/routes.rs", ""), ModuleType::API);
    assert_eq!(classify_module("src/capital.rs", ""), ModuleType::API);
    assert_eq!(classify_module("src/db_net.rs", ""), ModuleType::Database);
    assert_eq!(classify_module("src/database.rs", ""), ModuleType::Database);
    assert_eq!(classify_module("src/network.rs", ""), ModuleType::Network);
    assert_eq!(classify_module("src/net_auth.rs", ""), ModuleType::Network);
    assert_eq!(classify_module("src/author.rs", ""), ModuleType::Security);
    assert_eq!(classify_module("src/security_log.rs", ""), ModuleType::Security);
    assert_eq!(classify_module("src/catalog.rs", ""), ModuleType::Logging);
    assert_eq!(classify_module("src/log_monitor.rs", ""), ModuleType::Logging);
    assert_eq!(classify_module("src/monitor.rs", ""), ModuleType::Monitoring);
    assert_eq!(classify_module("src/metrics.rs", ""), ModuleType::Monitoring);
}

#[test]
fn kind_follows_the_content_when_the_path_says_nothing() {
    let p = "src/engine.rs";
    assert_eq!(classify_module(p, "async fn run() { tokio::spawn(x) }"), ModuleType::Execution);
    assert_eq!(classify_module(p, "use serde::Serialize;"), ModuleType::DataProcessing);
    assert_eq!(classify_module(p, "trait T { async fn f(); }"), ModuleType::Integration);
    assert_eq!(classify_module(p, "struct A; impl A {}"), ModuleType::Core);
    assert_eq!(classify_module(p, ""), ModuleType::Core);
    assert_eq!(classify_module(p, "async"), ModuleType::Core);
    assert_eq!(classify_module(p, "serde"), ModuleType::Core);
    assert_eq!(classify_module(p, "async trait tokio serde Serialize"), ModuleType::Execution);
    assert_eq!(classify_module(p, "trait async serde Serialize"), ModuleType::DataProcessing);
    assert_eq!(classify_module("src/tests.rs", "async tokio"), ModuleType::Testing);
}

#[test]
fn kind_is_read_off_the_path_in_lower_case() {
    let s = scanner();
    assert_eq!(s.determine_module_type(&path("/p/SRC/Tests/It.rs", None), ""), ModuleType::Testing);
    assert_eq!(s.determine_module_type(&path("/p/src/API.rs", None), ""), ModuleType::API);
    assert_eq!(s.determine_module_type(&path("/p/src/Engine.rs", None), ""), ModuleType::Core);
    assert_eq!(classify_module("/p/SRC/Tests/It.rs", ""), ModuleType::Core);
    assert_eq!(
        s.determine_module_type(&path("/p/src/engine.rs", None), "ASYNC TOKIO"),
        ModuleType::Core
    );
}

#[test]
fn dependencies_keep_every_occurrence_in_order() {
    let content = "use crate::types::Node;\nuse crate::types::Node;\nmod inner;\npub mod outer;\nuse std::fmt;\nuse  crate::{a,\n b};\n";
    assert_eq!(
        scanner().extract_dependencies(content),
        vec!["types::Node", "types::Node", "{a,\n b}", "inner", "outer"]
    );
    assert!(scanner().extract_dependencies("fn run() {}").is_empty());
    assert!(scanner().extract_dependencies("").is_empty());
}

#[test]
fn dependencies_from_matched_groups() {
    let references = vec![
        groups(&[Some("use crate::a"), Some("a")]),
        groups(&[Some("use crate::b"), None]),
        groups(&[Some("use crate::a"), Some("a")]),
    ];
    let submodules = vec![groups(&[Some("mod c"), Some("c")]), groups(&[Some("x")])];
    assert_eq!(dependencies_from(&references, &submodules), vec!["a", "a", "c"]);
    assert!(dependencies_from(&Vec::new(), &Vec::new()).is_empty());
}

#[test]
fn collect_group_appends_the_texts_of_one_group() {
    let found = vec![
        groups(&[Some("0a"), Some("1a"), Some("2a")]),
        groups(&[Some("0b"), None, Some("2b")]),
        groups(&[Some("0c")]),
    ];
    let mut out = vec!["first".to_string()];
    collect_group(&found, 2, &mut out);
    assert_eq!(out, vec!["first", "2a", "2b"]);
    collect_group(&found, 0, &mut out);
    assert_eq!(out, vec!["first", "2a", "2b", "0a", "0b", "0c"]);
    collect_group(&found, 7, &mut out);
    assert_eq!(out.len(), 6);
    assert_eq!(declared_names(&found), vec!["1a"]);
}

#[test]
fn functions_are_recorded_with_their_heuristic_facts() {
    let content = "pub fn alpha(a: u8, b: u8) {}\nasync fn beta() {}\nfn gamma(x: T) -> U {}\npub async fn delta(a, b, c) {}\n";
    let functions = scanner().extract_functions(content);
    let names: Vec<&str> = functions.iter().map(|f| f.name.as_str()).collect();
    assert_eq!(names, vec!["alpha", "beta", "gamma", "delta"]);
    let public: Vec<bool> = functions.iter().map(|f| f.is_public).collect();
    assert_eq!(public, vec![true, false, false, false]);
    let asynchronous: Vec<bool> = functions.iter().map(|f| f.is_async).collect();
    assert_eq!(asynchronous, vec![false, true, false, true]);
    let parameters: Vec<usize> = functions.iter().map(|f| f.parameter_count).collect();
    assert_eq!(parameters, vec![2, 1, 1, 3]);
    for f in &functions {
        assert_eq!(f.complexity, 10);
        assert_eq!(f.lines_of_code, 1);
        assert_eq!(f.documentation, None);
        assert!(f.attributes.is_empty());
    }
}

#[test]
fn a_function_named_twice_is_recorded_twice() {
    let content = "fn run(a) {}\nmod m { pub fn run(a, b) {} }";
    let functions = scanner().extract_functions(content);
    assert_eq!(functions.len(), 2);
    assert_eq!(functions[0], functions[1]);
    assert_eq!(functions[0].name, "run");
    assert!(functions[0].is_public);
    assert_eq!(functions[0].parameter_count, 1);
}

#[test]
fn function_names_are_taken_literally_in_the_parameter_search() {
    let found = vec![groups(&[Some("fn a.b()"), Some("a.b")])];
    let functions = functions_from("fn axb(p, q) {}", &found);
    assert_eq!(functions.len(), 1);
    assert_eq!(functions[0].name, "a.b");
    assert_eq!(functions[0].parameter_count, 0);
    let literal = functions_from("fn a.b(p, q) {}", &found);
    assert_eq!(literal[0].parameter_count, 2);
}

#[test]
fn parameters_are_the_pieces_between_commas() {
    assert_eq!(count_parameters(&None), 0);
    assert_eq!(count_parameters(&Some(groups(&[Some("fn f()"), Some("")]))), 1);
    assert_eq!(count_parameters(&Some(groups(&[Some("fn f(a)"), Some("a")]))), 1);
    assert_eq!(count_parameters(&Some(groups(&[Some("fn f(a, b)"), Some("a, b")]))), 2);
    assert_eq!(count_parameters(&Some(groups(&[Some("x"), Some(",,,")]))), 4);
    assert_eq!(count_parameters(&Some(groups(&[Some("x"), None]))), 0);
    assert_eq!(count_parameters(&Some(groups(&[Some("x")]))), 0);
}

#[test]
fn function_info_from_plain_values() {
    let content = chars("pub fn go(a, b) {} async fn go() {}");
    let f = function_info(&content, "go", &Some(groups(&[Some("fn go(a, b)"), Some("a, b")])));
    assert_eq!(f.name, "go");
    assert!(f.is_public);
    assert!(f.is_async);
    assert_eq!(f.parameter_count, 2);
    let g = function_info(&content, "stop", &None);
    assert!(!g.is_public);
    assert!(!g.is_async);
    assert_eq!(g.parameter_count, 0);
}

#[test]
fn structs_are_recorded_with_their_heuristic_facts() {
    let content = "pub struct Alpha { a: u8 }\nstruct Beta;\nimpl Alpha {}\n// struct Alpha again\n";
    let structs = scanner().extract_structs(content);
    let names: Vec<&str> = structs.iter().map(|s| s.name.as_str()).collect();
    assert_eq!(names, vec!["Alpha", "Beta", "Alpha"]);
    assert!(structs[0].is_public);
    assert!(!structs[1].is_public);
    assert_eq!(structs[0].field_count, 2);
    assert_eq!(structs[1].field_count, 1);
    assert_eq!(structs[2], structs[0]);
    for s in &structs {
        assert!(s.derives.is_empty());
        assert_eq!(s.documentation, None);
        assert!(s.attributes.is_empty());
        assert!(s.generics.is_empty());
    }
}

#[test]
fn enums_are_recorded_with_their_heuristic_facts() {
    let content = "pub enum Kind { A, B }\nenum Inner {}\nfn f(k: Kind) {}\n";
    let enums = scanner().extract_enums(content);
    let names: Vec<&str> = enums.iter().map(|e| e.name.as_str()).collect();
    assert_eq!(names, vec!["Kind", "Inner"]);
    assert!(enums[0].is_public);
    assert!(!enums[1].is_public);
    assert_eq!(enums[0].variant_count, 1);
    assert_eq!(enums[1].variant_count, 1);
    assert!(enums[0].derives.is_empty());
    assert!(enums[0].generics.is_empty());
}

#[test]
fn traits_are_recorded_with_their_heuristic_facts() {
    let content = "pub trait Scan { fn scan(&self); }\ntrait Hidden {}\nimpl Scan for X {}\n// trait Scan\n";
    let traits = scanner().extract_traits(content);
    let names: Vec<&str> = traits.iter().map(|t| t.name.as_str()).collect();
    assert_eq!(names, vec!["Scan", "Hidden", "Scan"]);
    assert!(traits[0].is_public);
    assert!(!traits[1].is_public);
    assert_eq!(traits[0].method_count, 2);
    assert_eq!(traits[1].method_count, 1);
    assert!(traits[0].supertraits.is_empty());
    assert!(traits[0].generics.is_empty());
}

#[test]
fn records_from_plain_values() {
    let content = chars("pub struct A; struct AB; pub enum E {} trait T {} trait T2 {}");
    let s = struct_info(&content, "A");
    assert!(s.is_public);
    assert_eq!(s.field_count, 2);
    let e = enum_info(&content, "E");
    assert!(e.is_public);
    assert_eq!(e.variant_count, 1);
    let t = trait_info(&content, "T");
    assert!(!t.is_public);
    assert_eq!(t.method_count, 2);
    let found = vec![groups(&[Some("struct A"), Some("A")]), groups(&[Some("struct AB"), Some("AB")])];
    assert_eq!(structs_from("pub struct A; struct AB;", &found).len(), 2);
    assert_eq!(enums_from("", &found)[1].name, "AB");
    assert_eq!(traits_from("", &Vec::new()).len(), 0);
}

#[test]
fn a_file_becomes_a_module() {
    let file = SourceFile {
        path: SourcePath {
            full: "/p/src/engine.rs".to_string(),
            relative: Some("src/engine.rs".to_string()),
            file_stem: Some("engine".to_string()),
            extension: Some("rs".to_string()),
        },
        content: "use crate::types;\npub struct Engine;\nimpl Engine {\n    pub fn run(&self, n: u8) {\n        if n > 0 { panic!(\"stop\") }\n    }\n}\n".to_string(),
        last_modified: Timestamp { secs: 1700000000, nanos: 42 },
    };
    let node = scanner().build_node("node-1".to_string(), &file);
    assert_eq!(node.id, "node-1");
    assert_eq!(node.name, "engine");
    assert_eq!(node.module_type, ModuleType::Core);
    assert_eq!(node.file_path, "src/engine.rs");
    assert_eq!(node.dependencies, vec!["types"]);
    assert!(node.dependents.is_empty());
    assert_eq!(node.status, NodeStatus::Active);
    assert_eq!(node.metrics.lines_of_code, 7);
    assert_eq!(node.metrics.complexity_score, 15);
    assert_eq!(node.metrics.function_count, 1);
    assert_eq!(node.metrics.struct_count, 1);
    assert_eq!(node.metrics.error_count, 1);
    assert_eq!(node.metrics.cyclomatic_complexity, 2);
    assert_eq!(node.metrics.cognitive_complexity, 6);
    assert_eq!(node.last_modified, Timestamp { secs: 1700000000, nanos: 42 });
    assert_eq!(node.functions.len(), 1);
    assert_eq!(node.functions[0].name, "run");
    assert!(node.functions[0].is_public);
    assert_eq!(node.functions[0].parameter_count, 2);
    assert_eq!(node.structs.len(), 1);
    assert_eq!(node.structs[0].name, "Engine");
    assert!(node.enums.is_empty());
    assert!(node.traits.is_empty());
    assert_eq!(node.position, None);
}

#[test]
fn a_file_outside_the_root_keeps_its_full_path() {
    let file = SourceFile {
        path: SourcePath {
            full: "/elsewhere/lib.rs".to_string(),
            relative: None,
            file_stem: Some("lib".to_string()),
            extension: Some("rs".to_string()),
        },
        content: String::new(),
        last_modified: Timestamp { secs: 0, nanos: 0 },
    };
    let node = scanner().build_node("x".to_string(), &file);
    assert_eq!(node.file_path, "/elsewhere/lib.rs");
    assert_eq!(node.name, "lib");
}

#[test]
fn parsed_files_get_ids_of_their_own() {
    let file = SourceFile {
        path: path("/p/src/a.rs", Some("a")),
        content: "pub struct A;\n".to_string(),
        last_modified: Timestamp { secs: 0, nanos: 0 },
    };
    let first = scanner().parse_rust_file(&file);
    let second = scanner().parse_rust_file(&file);
    assert!(!first.id.is_empty());
    assert_ne!(first.id, second.id);
    assert_eq!(first.name, second.name);
    assert_eq!(first.metrics, second.metrics);
}

#[test]
fn source_path_duplicate_is_equal() {
    let p = SourcePath {
        full: "/p/src/a.rs".to_string(),
        relative: Some("src/a.rs".to_string()),
        file_stem: Some("a".to_string()),
        extension: None,
    };
    assert_eq!(p.duplicate(), p);
}
