use rust_architecture_visualizer::scanner::dependency_analyzer::{
    degree_of, ids_from, is_adjacent_in, is_on_cycle, position_of, DependencyAnalyzer,
};
use rust_architecture_visualizer::types::{
    ArchitectureNode, DependencyEdge, DependencyType, ModuleType, NodeMetrics, NodeStatus, Ratio,
    Timestamp,
};

fn node(id: &str, name: &str, kind: ModuleType, dependencies: &[&str]) -> ArchitectureNode {
    ArchitectureNode {
        id: id.to_string(),
        name: name.to_string(),
        module_type: kind,
        file_path: format!("src/{}.rs", name),
        dependencies: dependencies.iter().map(|d| d.to_string()).collect(),
        dependents: Vec::new(),
        status: NodeStatus::Active,
        metrics: NodeMetrics {
            lines_of_code: 1,
            complexity_score: 10,
            test_coverage: 0,
            function_count: 0,
            struct_count: 0,
            enum_count: 0,
            trait_count: 0,
            last_build_time: None,
            error_count: 0,
            warning_count: 0,
            dependency_count: 0,
            dependent_count: 0,
            cyclomatic_complexity: 1,
            cognitive_complexity: 0,
        },
        last_modified: Timestamp { secs: 0, nanos: 0 },
        functions: Vec::new(),
        structs: Vec::new(),
        enums: Vec::new(),
        traits: Vec::new(),
        position: None,
    }
}

fn edge(from: &str, to: &str) -> DependencyEdge {
    DependencyEdge {
        from: from.to_string(),
        to: to.to_string(),
        relationship: DependencyType::DependsOn,
        strength: 10,
        is_circular: false,
    }
}

fn ids(list: &[&str]) -> Vec<String> {
    list.iter().map(|s| s.to_string()).collect()
}

fn sample_nodes() -> Vec<ArchitectureNode> {
    vec![
        node("ida", "a", ModuleType::Core, &["b", "missing", "b"]),
        node("idb", "b", ModuleType::API, &["a"]),
        node("idc", "c", ModuleType::Testing, &["c", "a"]),
    ]
}

#[test]
fn a_name_resolves_to_the_first_module_of_that_name() {
    let analyzer = DependencyAnalyzer::new();
    let nodes = vec![
        node("1", "x", ModuleType::Core, &[]),
        node("2", "dup", ModuleType::Core, &[]),
        node("3", "dup", ModuleType::API, &[]),
    ];
    assert_eq!(analyzer.find_node_by_name(&nodes, &"dup".to_string()), Some(1));
    assert_eq!(analyzer.find_node_by_name(&nodes, &"x".to_string()), Some(0));
    assert_eq!(analyzer.find_node_by_name(&nodes, &"X".to_string()), None);
    assert_eq!(analyzer.find_node_by_name(&nodes, &"du".to_string()), None);
    assert_eq!(analyzer.find_node_by_name(&Vec::new(), &"x".to_string()), None);
}

#[test]
fn names_resolve_by_name_and_not_by_id() {
    let analyzer = DependencyAnalyzer::new();
    let nodes = vec![node("b", "a", ModuleType::Core, &["b"]), node("a", "b", ModuleType::Core, &[])];
    let edges = analyzer.analyze_dependencies(&nodes);
    assert_eq!(edges.len(), 1);
    assert_eq!(edges[0].from, "b");
    assert_eq!(edges[0].to, "a");
}

#[test]
fn relationship_follows_the_kinds() {
    let analyzer = DependencyAnalyzer::new();
    let of = |s: ModuleType, t: ModuleType| {
        analyzer.determine_relationship_type(&node("s", "s", s, &[]), &node("t", "t", t, &[]))
    };
    assert_eq!(of(ModuleType::API, ModuleType::Core), DependencyType::Uses);
    assert_eq!(of(ModuleType::Core, ModuleType::DataProcessing), DependencyType::Uses);
    assert_eq!(of(ModuleType::Execution, ModuleType::Core), DependencyType::Uses);
    assert_eq!(of(ModuleType::Integration, ModuleType::API), DependencyType::Uses);
    assert_eq!(of(ModuleType::Testing, ModuleType::Core), DependencyType::Uses);
    assert_eq!(of(ModuleType::Testing, ModuleType::Other("x".to_string())), DependencyType::Uses);
    assert_eq!(of(ModuleType::Core, ModuleType::API), DependencyType::DependsOn);
    assert_eq!(of(ModuleType::Core, ModuleType::Core), DependencyType::DependsOn);
    assert_eq!(of(ModuleType::Core, ModuleType::Testing), DependencyType::DependsOn);
    assert_eq!(of(ModuleType::API, ModuleType::DataProcessing), DependencyType::DependsOn);
    assert_eq!(of(ModuleType::Other("x".to_string()), ModuleType::Core), DependencyType::DependsOn);
}

#[test]
fn strength_is_flat_at_ten_tenths() {
    let analyzer = DependencyAnalyzer::new();
    let plain = node("s", "s", ModuleType::Utilities, &[]);
    let busy = node("s", "s", ModuleType::API, &["a", "b", "c"]);
    let core = node("t", "t", ModuleType::Core, &[]);
    let other = node("t", "t", ModuleType::Logging, &[]);
    assert_eq!(analyzer.calculate_dependency_strength(&plain, &other), 10);
    assert_eq!(analyzer.calculate_dependency_strength(&plain, &core), 10);
    assert_eq!(analyzer.calculate_dependency_strength(&busy, &other), 10);
    assert_eq!(analyzer.calculate_dependency_strength(&busy, &core), 10);
    let expected: f64 = (1.0f64 + 0.3 + 0.5 + 0.3).min(1.0);
    assert_eq!(analyzer.calculate_dependency_strength(&busy, &core) as f64 / 10.0, expected);
}

#[test]
fn edges_follow_the_dependency_names_in_order() {
    let edges = DependencyAnalyzer::new().analyze_dependencies(&sample_nodes());
    let ends: Vec<(&str, &str)> = edges.iter().map(|e| (e.from.as_str(), e.to.as_str())).collect();
    assert_eq!(
        ends,
        vec![("ida", "idb"), ("ida", "idb"), ("idb", "ida"), ("idc", "idc"), ("idc", "ida")]
    );
    let kinds: Vec<DependencyType> = edges.iter().map(|e| e.relationship).collect();
    assert_eq!(
        kinds,
        vec![
            DependencyType::DependsOn,
            DependencyType::DependsOn,
            DependencyType::Uses,
            DependencyType::Uses,
            DependencyType::Uses,
        ]
    );
    assert!(edges.iter().all(|e| e.strength == 10));
    let flags: Vec<bool> = edges.iter().map(|e| e.is_circular).collect();
    assert_eq!(flags, vec![true, true, true, true, false]);
}

#[test]
fn unresolved_names_give_no_edge() {
    let nodes = vec![node("1", "a", ModuleType::Core, &["nowhere", "A", "a::b"])];
    assert!(DependencyAnalyzer::new().analyze_dependencies(&nodes).is_empty());
    assert!(DependencyAnalyzer::new().analyze_dependencies(&Vec::new()).is_empty());
}

#[test]
fn two_modules_that_name_each_other_form_one_cycle() {
    let analyzer = DependencyAnalyzer::new();
    let edges = vec![edge("a", "b"), edge("b", "a")];
    assert_eq!(analyzer.find_circular_dependencies(&edges), vec![ids(&["a", "b"])]);
}

#[test]
fn cycles_of_the_sample() {
    let analyzer = DependencyAnalyzer::new();
    let edges = analyzer.analyze_dependencies(&sample_nodes());
    assert_eq!(
        analyzer.find_circular_dependencies(&edges),
        vec![ids(&["ida", "idb"]), ids(&["idc"])]
    );
}

#[test]
fn a_graph_without_cycles_has_none() {
    let analyzer = DependencyAnalyzer::new();
    let edges = vec![edge("a", "b"), edge("b", "c"), edge("a", "c"), edge("d", "a")];
    assert!(analyzer.find_circular_dependencies(&edges).is_empty());
    assert!(analyzer.find_circular_dependencies(&Vec::new()).is_empty());
}

#[test]
fn a_cycle_is_the_path_from_the_node_led_back_to() {
    let analyzer = DependencyAnalyzer::new();
    let edges = vec![edge("r", "x"), edge("x", "y"), edge("y", "z"), edge("z", "x")];
    assert_eq!(analyzer.find_circular_dependencies(&edges), vec![ids(&["x", "y", "z"])]);
}

#[test]
fn several_cycles_are_found_in_the_order_of_the_search() {
    let analyzer = DependencyAnalyzer::new();
    let edges = vec![
        edge("a", "b"),
        edge("b", "a"),
        edge("b", "c"),
        edge("c", "a"),
        edge("c", "c"),
        edge("d", "d"),
    ];
    assert_eq!(
        analyzer.find_circular_dependencies(&edges),
        vec![ids(&["a", "b"]), ids(&["a", "b", "c"]), ids(&["c"]), ids(&["d"])]
    );
}

#[test]
fn every_adjacent_pair_of_a_cycle_is_an_edge() {
    let analyzer = DependencyAnalyzer::new();
    let edges = vec![
        edge("a", "b"),
        edge("b", "c"),
        edge("c", "d"),
        edge("d", "b"),
        edge("c", "a"),
        edge("e", "a"),
    ];
    let cycles = analyzer.find_circular_dependencies(&edges);
    assert!(!cycles.is_empty());
    for cycle in &cycles {
        assert!(!cycle.is_empty());
        for pair in cycle.windows(2) {
            assert!(edges.iter().any(|e| e.from == pair[0] && e.to == pair[1]));
        }
        let last = &cycle[cycle.len() - 1];
        assert!(edges.iter().any(|e| &e.from == last && e.to == cycle[0]));
    }
}

#[test]
fn flags_mark_every_edge_of_a_cycle_the_closing_one_too() {
    let analyzer = DependencyAnalyzer::new();
    let mut edges = vec![edge("x", "y"), edge("y", "z"), edge("z", "x"), edge("w", "x")];
    analyzer.update_circular_dependencies(&mut edges);
    let flags: Vec<bool> = edges.iter().map(|e| e.is_circular).collect();
    assert_eq!(flags, vec![true, true, true, false]);
    assert_eq!(edges[0].from, "x");
    assert_eq!(edges[3].to, "x");
    let cycles = analyzer.find_circular_dependencies(&edges);
    for e in edges.iter().filter(|e| e.is_circular) {
        assert!(cycles.iter().any(|c| (0..c.len()).any(|i| {
            let next = &c[(i + 1) % c.len()];
            (c[i] == e.from && next == &e.to) || (c[i] == e.to && next == &e.from)
        })));
    }
}

#[test]
fn flags_are_cleared_where_no_cycle_holds_the_edge() {
    let analyzer = DependencyAnalyzer::new();
    let mut edges = vec![edge("a", "b")];
    edges[0].is_circular = true;
    edges[0].relationship = DependencyType::Calls;
    edges[0].strength = 7;
    analyzer.update_circular_dependencies(&mut edges);
    assert!(!edges[0].is_circular);
    assert_eq!(edges[0].relationship, DependencyType::Calls);
    assert_eq!(edges[0].strength, 7);
}

#[test]
fn a_module_that_names_itself_has_a_flagged_loop() {
    let analyzer = DependencyAnalyzer::new();
    let nodes = vec![node("1", "a", ModuleType::Core, &["a"])];
    let edges = analyzer.analyze_dependencies(&nodes);
    assert_eq!(edges.len(), 1);
    assert_eq!(edges[0].from, "1");
    assert_eq!(edges[0].to, "1");
    assert!(edges[0].is_circular);
    assert_eq!(analyzer.find_circular_dependencies(&edges), vec![ids(&["1"])]);
}

#[test]
fn one_visit_of_the_search() {
    let analyzer = DependencyAnalyzer::new();
    let edges = vec![edge("a", "b"), edge("b", "a"), edge("b", "c")];
    let mut visited = Vec::new();
    let mut path = Vec::new();
    let mut cycles = Vec::new();
    analyzer.dfs_find_cycles(&"a".to_string(), &edges, &mut visited, &mut path, &mut cycles);
    assert_eq!(visited, ids(&["a", "b", "c"]));
    assert!(path.is_empty());
    assert_eq!(cycles, vec![ids(&["a", "b"])]);
    analyzer.dfs_find_cycles(&"z".to_string(), &edges, &mut visited, &mut path, &mut cycles);
    assert_eq!(visited, ids(&["a", "b", "c", "z"]));
    assert_eq!(cycles.len(), 1);
}

#[test]
fn helpers_on_id_lists() {
    let list = ids(&["a", "b", "a", "c"]);
    assert_eq!(position_of(&list, &"a".to_string()), 0);
    assert_eq!(position_of(&list, &"c".to_string()), 3);
    assert_eq!(position_of(&list, &"z".to_string()), 4);
    assert_eq!(ids_from(&list, 2), ids(&["a", "c"]));
    assert_eq!(ids_from(&list, 4), ids(&[]));
    assert!(is_adjacent_in(&list, &"b".to_string(), &"a".to_string()));
    assert!(is_adjacent_in(&list, &"c".to_string(), &"a".to_string()));
    assert!(!is_adjacent_in(&list, &"c".to_string(), &"b".to_string()));
    assert!(!is_adjacent_in(&list, &"b".to_string(), &"c".to_string()));
    assert!(is_adjacent_in(&ids(&["a"]), &"a".to_string(), &"a".to_string()));
    assert!(!is_adjacent_in(&ids(&["a", "b"]), &"a".to_string(), &"a".to_string()));
    assert!(is_adjacent_in(&ids(&["a", "b"]), &"b".to_string(), &"a".to_string()));
    assert!(!is_adjacent_in(&ids(&[]), &"a".to_string(), &"a".to_string()));
    let cycles = vec![ids(&["x"]), list];
    assert!(is_on_cycle(&cycles, &"a".to_string(), &"b".to_string()));
    assert!(is_on_cycle(&cycles, &"c".to_string(), &"a".to_string()));
    assert!(!is_on_cycle(&cycles, &"c".to_string(), &"b".to_string()));
    assert!(is_on_cycle(&cycles, &"x".to_string(), &"x".to_string()));
    assert!(!is_on_cycle(&cycles, &"x".to_string(), &"a".to_string()));
}

#[test]
fn dependency_metrics_of_the_sample() {
    let analyzer = DependencyAnalyzer::new();
    let nodes = sample_nodes();
    let edges = analyzer.analyze_dependencies(&nodes);
    let m = analyzer.calculate_dependency_metrics(&nodes, &edges);
    assert_eq!(m.total_dependencies, 5);
    assert_eq!(m.circular_dependencies, 2);
    assert_eq!(m.dependency_density, Ratio { num: 5, den: 6 });
    assert_eq!(m.average_dependencies_per_node, Ratio { num: 5, den: 3 });
    assert_eq!(m.most_connected_node, Some("ida".to_string()));
    assert_eq!(degree_of(&edges, &"ida".to_string()), 4);
    assert_eq!(degree_of(&edges, &"idb".to_string()), 3);
    assert_eq!(degree_of(&edges, &"idc".to_string()), 3);
    assert_eq!(degree_of(&edges, &"none".to_string()), 0);
}

#[test]
fn dependency_metrics_of_an_empty_graph() {
    let analyzer = DependencyAnalyzer::new();
    let m = analyzer.calculate_dependency_metrics(&Vec::new(), &Vec::new());
    assert_eq!(m.total_dependencies, 0);
    assert_eq!(m.circular_dependencies, 0);
    assert_eq!(m.dependency_density, Ratio { num: 0, den: 1 });
    assert_eq!(m.average_dependencies_per_node, Ratio { num: 0, den: 1 });
    assert_eq!(m.most_connected_node, None);
}

#[test]
fn the_most_connected_node_is_the_first_of_the_highest_degree() {
    let analyzer = DependencyAnalyzer::new();
    assert_eq!(analyzer.most_connected_node(&vec![edge("a", "b")]), Some("a".to_string()));
    assert_eq!(
        analyzer.most_connected_node(&vec![edge("a", "b"), edge("c", "b")]),
        Some("b".to_string())
    );
    assert_eq!(
        analyzer.most_connected_node(&vec![edge("a", "b"), edge("c", "c")]),
        Some("c".to_string())
    );
    assert_eq!(
        analyzer.most_connected_node(&vec![edge("a", "b"), edge("c", "d"), edge("d", "c")]),
        Some("c".to_string())
    );
    assert_eq!(analyzer.most_connected_node(&Vec::new()), None);
}

#[test]
fn a_node_is_visited_whatever_the_path() {
    let analyzer = DependencyAnalyzer::new();
    let mut visited = ids(&["x"]);
    let mut path = ids(&["x"]);
    let mut cycles = Vec::new();
    analyzer.dfs_find_cycles(&"y".to_string(), &Vec::new(), &mut visited, &mut path, &mut cycles);
    assert_eq!(visited, ids(&["x", "y"]));
    assert_eq!(path, ids(&["x"]));
    assert!(cycles.is_empty());
    let edges = vec![edge("a", "b")];
    let mut visited = Vec::new();
    let mut path = ids(&["x", "y"]);
    analyzer.dfs_find_cycles(&"a".to_string(), &edges, &mut visited, &mut path, &mut cycles);
    assert_eq!(visited, ids(&["a", "b"]));
    assert_eq!(path, ids(&["x", "y"]));
    assert!(cycles.is_empty());
}

#[test]
fn a_link_back_onto_a_given_path_closes_a_cycle() {
    let analyzer = DependencyAnalyzer::new();
    let edges = vec![edge("a", "x")];
    let mut visited = ids(&["x", "y"]);
    let mut path = ids(&["x", "y"]);
    let mut cycles = Vec::new();
    analyzer.dfs_find_cycles(&"a".to_string(), &edges, &mut visited, &mut path, &mut cycles);
    assert_eq!(visited, ids(&["x", "y", "a"]));
    assert_eq!(cycles, vec![ids(&["x", "y", "a"])]);
}

#[test]
fn every_edge_of_a_ring_is_flagged() {
    let analyzer = DependencyAnalyzer::new();
    let nodes = vec![
        node("1", "a", ModuleType::Core, &["b"]),
        node("2", "b", ModuleType::Core, &["c"]),
        node("3", "c", ModuleType::Core, &["a"]),
    ];
    let edges = analyzer.analyze_dependencies(&nodes);
    assert_eq!(edges.len(), 3);
    assert!(edges.iter().all(|e| e.is_circular));
    assert_eq!(analyzer.find_circular_dependencies(&edges), vec![ids(&["1", "2", "3"])]);
}

#[test]
fn a_visited_neighbour_is_not_searched_again() {
    let analyzer = DependencyAnalyzer::new();
    let edges = vec![edge("a", "b"), edge("b", "c")];
    let mut visited = ids(&["b"]);
    let mut path = Vec::new();
    let mut cycles = Vec::new();
    analyzer.dfs_find_cycles(&"a".to_string(), &edges, &mut visited, &mut path, &mut cycles);
    assert_eq!(visited, ids(&["b", "a"]));
    assert!(cycles.is_empty());
}
