use rust_architecture_visualizer::scanner::metrics_calculator::{
    kind_distribution, sum_counter, Counter, MetricsCalculator,
};
use rust_architecture_visualizer::types::{
    ArchitectureNode, DependencyEdge, DependencyType, KindCount, ModuleType, NodeMetrics,
    NodeStatus, Ratio, Timestamp,
};

const SAMPLE: &str = "// comment
/* block */

fn main() {
    if x > 0 && y > 0 {
        for i in 0..3 {
            while true { loop { } }
        }
    }
    match v {
        _ => {}
    }
    let v = maybe?.len();
    foo.unwrap();
    bar.expect(\"oops\");
    if a || b { panic!(\"no\") }
}
";

fn metrics(lines: usize, complexity: u64) -> NodeMetrics {
    NodeMetrics {
        lines_of_code: lines,
        complexity_score: complexity,
        test_coverage: 0,
        function_count: 1,
        struct_count: 2,
        enum_count: 3,
        trait_count: 4,
        last_build_time: None,
        error_count: 0,
        warning_count: 0,
        dependency_count: 0,
        dependent_count: 0,
        cyclomatic_complexity: 1,
        cognitive_complexity: 0,
    }
}

fn node(id: &str, kind: ModuleType, lines: usize, complexity: u64) -> ArchitectureNode {
    ArchitectureNode {
        id: id.to_string(),
        name: id.to_string(),
        module_type: kind,
        file_path: format!("src/{}.rs", id),
        dependencies: Vec::new(),
        dependents: Vec::new(),
        status: NodeStatus::Active,
        metrics: metrics(lines, complexity),
        last_modified: Timestamp { secs: 0, nanos: 0 },
        functions: Vec::new(),
        structs: Vec::new(),
        enums: Vec::new(),
        traits: Vec::new(),
        position: None,
    }
}

fn edge(from: &str, to: &str) -> DependencyEdge {
    DependencyEdge {
        from: from.to_string(),
        to: to.to_string(),
        relationship: DependencyType::DependsOn,
        strength: 10,
        is_circular: false,
    }
}

#[test]
fn node_metrics_of_a_sample() {
    let m = MetricsCalculator::new().calculate_node_metrics(SAMPLE);
    assert_eq!(m.lines_of_code, 14);
    assert_eq!(m.complexity_score, 53);
    assert_eq!(m.test_coverage, 0);
    assert_eq!(m.function_count, 1);
    assert_eq!(m.struct_count, 0);
    assert_eq!(m.enum_count, 0);
    assert_eq!(m.trait_count, 0);
    assert_eq!(m.last_build_time, None);
    assert_eq!(m.error_count, 2);
    assert_eq!(m.warning_count, 0);
    assert_eq!(m.dependency_count, 0);
    assert_eq!(m.dependent_count, 0);
    assert_eq!(m.cyclomatic_complexity, 9);
    assert_eq!(m.cognitive_complexity, 34);
}

#[test]
fn complexity_score_follows_the_weights() {
    let calculator = MetricsCalculator::new();
    assert_eq!(calculator.calculate_complexity(""), 10);
    assert_eq!(calculator.calculate_complexity("if a"), 15);
    assert_eq!(calculator.calculate_complexity("match a"), 18);
    assert_eq!(calculator.calculate_complexity("for a"), 16);
    assert_eq!(calculator.calculate_complexity("while a"), 17);
    assert_eq!(calculator.calculate_complexity("loop {"), 18);
    assert_eq!(calculator.calculate_complexity("{{"), 11);
    assert_eq!(calculator.calculate_complexity("async"), 15);
    assert_eq!(calculator.calculate_complexity("async async"), 15);
    assert_eq!(calculator.calculate_complexity("a?.b"), 12);
    assert_eq!(calculator.calculate_complexity("a.unwrap()"), 11);
    assert_eq!(calculator.calculate_complexity("a.expect(b)"), 11);
    assert_eq!(calculator.calculate_complexity("if a if b"), 20);
}

#[test]
fn complexity_score_in_tenths_is_the_weighted_sum() {
    let score = MetricsCalculator::new().calculate_complexity(SAMPLE);
    let expected: f64 = 1.0 + 2.0 * 0.5 + 0.8 + 0.6 + 0.7 + 0.8 + 0.2 + 0.1 + 0.1;
    assert!((score as f64 / 10.0 - expected).abs() < 1e-9);
}

#[test]
fn cyclomatic_complexity_counts_decision_points() {
    let calculator = MetricsCalculator::new();
    assert_eq!(calculator.calculate_cyclomatic_complexity(""), 1);
    assert_eq!(calculator.calculate_cyclomatic_complexity("a && b || c"), 3);
    assert_eq!(calculator.calculate_cyclomatic_complexity("if a for b while c loop {"), 5);
    assert_eq!(calculator.calculate_cyclomatic_complexity("match a match b"), 3);
    assert_eq!(calculator.calculate_cyclomatic_complexity("&&&&"), 3);
    assert_eq!(calculator.calculate_cyclomatic_complexity(SAMPLE), 9);
}

#[test]
fn cognitive_complexity_weighs_by_nesting() {
    let calculator = MetricsCalculator::new();
    assert_eq!(calculator.calculate_cognitive_complexity(""), 0);
    assert_eq!(calculator.calculate_cognitive_complexity("if a"), 2);
    assert_eq!(calculator.calculate_cognitive_complexity("match a"), 4);
    assert_eq!(calculator.calculate_cognitive_complexity("for a"), 2);
    assert_eq!(calculator.calculate_cognitive_complexity("while a"), 2);
    assert_eq!(calculator.calculate_cognitive_complexity("loop a"), 3);
    assert_eq!(calculator.calculate_cognitive_complexity("if a {"), 4);
    assert_eq!(calculator.calculate_cognitive_complexity("{\n{\nloop a"), 7);
}

#[test]
fn nesting_level_does_not_fall_below_zero() {
    let calculator = MetricsCalculator::new();
    assert_eq!(calculator.calculate_cognitive_complexity("}\n}\nif x {\nloop {\nmatch y {\n"), 21);
    assert_eq!(calculator.calculate_cognitive_complexity("}\nif x"), 2);
    assert_eq!(calculator.calculate_cognitive_complexity("{ }\nif x"), 2);
}

#[test]
fn control_keywords_count_only_at_the_start_of_the_trimmed_line() {
    let calculator = MetricsCalculator::new();
    let text = "  if \nif x\n\tfor y in z\nwhile q\nloop \nloop\n";
    assert_eq!(calculator.calculate_cognitive_complexity(text), 6);
    assert_eq!(calculator.calculate_cognitive_complexity("x; if y"), 0);
}

#[test]
fn lines_of_code_leave_out_blank_lines_and_comments() {
    let calculator = MetricsCalculator::new();
    assert_eq!(calculator.count_lines_of_code(SAMPLE), 14);
    assert_eq!(calculator.count_lines_of_code(""), 0);
    assert_eq!(calculator.count_lines_of_code("\n\n"), 0);
    assert_eq!(calculator.count_lines_of_code("a"), 1);
    assert_eq!(calculator.count_lines_of_code("a\n"), 1);
    assert_eq!(calculator.count_lines_of_code("a\nb"), 2);
    assert_eq!(calculator.count_lines_of_code("  // c\n\t/* d */\n   \nx // e"), 1);
    assert_eq!(calculator.count_lines_of_code("a\r\n// c\r\n \r\nb"), 2);
    assert_eq!(calculator.count_lines_of_code("/ not a comment\n* neither"), 2);
}

#[test]
fn lines_of_code_agree_with_the_standard_lines() {
    let texts = [SAMPLE, "a\r\nb\r\n", "\r\n", "x\n\ny\n", "   \n//\n/*\nz"];
    for text in texts {
        let expected = text
            .lines()
            .filter(|line| {
                let t = line.trim();
                !t.is_empty() && !t.starts_with("//") && !t.starts_with("/*")
            })
            .count();
        assert_eq!(MetricsCalculator::new().count_lines_of_code(text), expected);
    }
}

#[test]
fn declaration_counts() {
    let calculator = MetricsCalculator::new();
    let text = "async fn run() {}\n#[warn(dead_code)]\npub trait T {}\nenum E { X }\nformat!(\"{{}}\");\n";
    assert_eq!(calculator.count_functions(text), 1);
    assert_eq!(calculator.count_structs(text), 0);
    assert_eq!(calculator.count_enums(text), 1);
    assert_eq!(calculator.count_traits(text), 1);
    assert_eq!(calculator.count_warnings(text), 1);
    assert_eq!(calculator.count_errors(text), 0);
    assert_eq!(calculator.calculate_complexity(text), 16);
    assert_eq!(calculator.count_structs("struct A; pub struct B {}"), 2);
    assert_eq!(calculator.count_functions("fn a() {} pub fn b() {} fn"), 2);
}

#[test]
fn error_count_adds_panics_and_unwraps() {
    let calculator = MetricsCalculator::new();
    assert_eq!(calculator.count_errors("panic!(\"a\"); x.unwrap(); y.unwrap(); panic!()"), 4);
    assert_eq!(calculator.count_errors("x.unwrap( )"), 0);
    assert_eq!(calculator.count_errors("panic"), 0);
}

#[test]
fn counters_add_up_over_the_modules() {
    let nodes = vec![node("a", ModuleType::Core, 600, 150), node("b", ModuleType::API, 900, 250)];
    assert_eq!(sum_counter(&nodes, Counter::Lines), 1500);
    assert_eq!(sum_counter(&nodes, Counter::Complexity), 400);
    assert_eq!(sum_counter(&nodes, Counter::Functions), 2);
    assert_eq!(sum_counter(&nodes, Counter::Structs), 4);
    assert_eq!(sum_counter(&nodes, Counter::Enums), 6);
    assert_eq!(sum_counter(&nodes, Counter::Traits), 8);
    assert_eq!(sum_counter(&Vec::new(), Counter::Lines), 0);
}

#[test]
fn counters_do_not_overflow() {
    let nodes = vec![
        node("a", ModuleType::Core, usize::MAX, u64::MAX),
        node("b", ModuleType::Core, usize::MAX, u64::MAX),
    ];
    assert_eq!(sum_counter(&nodes, Counter::Complexity), 2 * (u64::MAX as u128));
    assert_eq!(sum_counter(&nodes, Counter::Lines), 2 * (usize::MAX as u128));
}

#[test]
fn architecture_metrics_of_two_modules() {
    let nodes = vec![node("a", ModuleType::Core, 600, 150), node("b", ModuleType::API, 900, 250)];
    let edges = vec![edge("a", "b")];
    let m = MetricsCalculator::new().calculate_architecture_metrics(&nodes, &edges);
    assert_eq!(m.total_functions, 2);
    assert_eq!(m.total_structs, 4);
    assert_eq!(m.total_enums, 6);
    assert_eq!(m.total_traits, 8);
    assert_eq!(m.max_complexity, 250);
    assert_eq!(m.min_complexity, 150);
    assert_eq!(m.dependency_density, Ratio { num: 1, den: 2 });
    assert_eq!(
        m.kind_distribution,
        vec![
            KindCount { kind: ModuleType::Core, count: 1 },
            KindCount { kind: ModuleType::API, count: 1 },
        ]
    );
    assert_eq!(m.maintainability_index.lines_factor, Ratio { num: 1000, den: 1500 });
    assert_eq!(m.maintainability_index.complexity_factor, Ratio { num: 200, den: 400 });
}

#[test]
fn architecture_metrics_without_modules_are_zero() {
    let m = MetricsCalculator::new().calculate_architecture_metrics(&Vec::new(), &Vec::new());
    assert_eq!(m.total_functions, 0);
    assert_eq!(m.total_structs, 0);
    assert_eq!(m.total_enums, 0);
    assert_eq!(m.total_traits, 0);
    assert_eq!(m.max_complexity, 0);
    assert_eq!(m.min_complexity, 0);
    assert_eq!(m.dependency_density, Ratio { num: 0, den: 1 });
    assert!(m.kind_distribution.is_empty());
    assert_eq!(m.maintainability_index.lines_factor, Ratio { num: 0, den: 1 });
    assert_eq!(m.maintainability_index.complexity_factor, Ratio { num: 0, den: 1 });
}

#[test]
fn density_is_edges_over_ordered_pairs() {
    let calculator = MetricsCalculator::new();
    let three = vec![
        node("a", ModuleType::Core, 1, 10),
        node("b", ModuleType::Core, 1, 10),
        node("c", ModuleType::Core, 1, 10),
    ];
    let two_edges = vec![edge("a", "b"), edge("b", "c")];
    assert_eq!(calculator.calculate_dependency_density(&three, &two_edges), Ratio { num: 2, den: 6 });
    assert_eq!(calculator.calculate_dependency_density(&three, &Vec::new()), Ratio { num: 0, den: 6 });
}

#[test]
fn density_is_zero_for_fewer_than_two_modules() {
    let calculator = MetricsCalculator::new();
    let one = vec![node("a", ModuleType::Core, 1, 10)];
    let loops = vec![edge("a", "a"), edge("a", "a")];
    assert_eq!(calculator.calculate_dependency_density(&one, &loops), Ratio { num: 0, den: 1 });
    assert_eq!(calculator.calculate_dependency_density(&Vec::new(), &loops), Ratio { num: 0, den: 1 });
}

#[test]
fn density_lies_in_the_unit_interval_when_edges_are_at_most_the_pairs() {
    let calculator = MetricsCalculator::new();
    let two = vec![node("a", ModuleType::Core, 1, 10), node("b", ModuleType::Core, 1, 10)];
    let full = vec![edge("a", "b"), edge("b", "a")];
    let d = calculator.calculate_dependency_density(&two, &full);
    assert!(d.den > 0 && d.num <= d.den);
    assert_eq!(d, Ratio { num: 2, den: 2 });
}

#[test]
fn density_exceeds_one_when_edges_repeat() {
    let calculator = MetricsCalculator::new();
    let two = vec![node("a", ModuleType::Core, 1, 10), node("b", ModuleType::Core, 1, 10)];
    let repeated = vec![edge("a", "b"), edge("a", "b"), edge("a", "b")];
    assert_eq!(calculator.calculate_dependency_density(&two, &repeated), Ratio { num: 3, den: 2 });
}

#[test]
fn maintainability_is_one_for_a_small_simple_module() {
    let nodes = vec![node("a", ModuleType::Core, 10, 10)];
    let index = MetricsCalculator::new().calculate_maintainability_index(&nodes);
    assert_eq!(index.lines_factor, Ratio { num: 1000, den: 1000 });
    assert_eq!(index.complexity_factor, Ratio { num: 100, den: 100 });
}

#[test]
fn maintainability_components_at_their_thresholds() {
    let calculator = MetricsCalculator::new();
    let at = calculator.calculate_maintainability_index(&vec![node("a", ModuleType::Core, 1000, 100)]);
    assert_eq!(at.lines_factor, Ratio { num: 1000, den: 1000 });
    assert_eq!(at.complexity_factor, Ratio { num: 100, den: 100 });
    let above = calculator.calculate_maintainability_index(&vec![node("a", ModuleType::Core, 1001, 101)]);
    assert_eq!(above.lines_factor, Ratio { num: 1000, den: 1001 });
    assert_eq!(above.complexity_factor, Ratio { num: 100, den: 101 });
    let none = calculator.calculate_maintainability_index(&vec![node("a", ModuleType::Core, 0, 0)]);
    assert_eq!(none.lines_factor, Ratio { num: 1000, den: 1000 });
    assert_eq!(none.complexity_factor, Ratio { num: 100, den: 100 });
}

#[test]
fn maintainability_matches_the_formula_in_floating_point() {
    let nodes = vec![node("a", ModuleType::Core, 600, 150), node("b", ModuleType::API, 900, 250)];
    let index = MetricsCalculator::new().calculate_maintainability_index(&nodes);
    let lines_factor = index.lines_factor.num as f64 / index.lines_factor.den as f64;
    let complexity_factor = index.complexity_factor.num as f64 / index.complexity_factor.den as f64;
    let total_lines: f64 = 1500.0;
    let average_complexity: f64 = (15.0 + 25.0) / 2.0;
    assert!((lines_factor - (1000.0 / total_lines.max(1.0)).min(1.0)).abs() < 1e-12);
    assert!((complexity_factor - (10.0 / average_complexity.max(1.0)).min(1.0)).abs() < 1e-12);
    let value = (lines_factor + complexity_factor) / 2.0;
    assert!(0.0 <= value && value <= 1.0);
}

#[test]
fn maintainability_stays_in_the_unit_interval_at_the_extremes() {
    let nodes = vec![
        node("a", ModuleType::Core, usize::MAX, u64::MAX),
        node("b", ModuleType::Core, usize::MAX, u64::MAX),
    ];
    let index = MetricsCalculator::new().calculate_maintainability_index(&nodes);
    assert!(index.lines_factor.den > 0 && index.lines_factor.num <= index.lines_factor.den);
    assert!(
        index.complexity_factor.den > 0 && index.complexity_factor.num <= index.complexity_factor.den
    );
}

#[test]
fn kinds_are_listed_once_in_order_of_first_occurrence() {
    let nodes = vec![
        node("a", ModuleType::Core, 1, 10),
        node("b", ModuleType::API, 1, 10),
        node("c", ModuleType::Core, 1, 10),
        node("d", ModuleType::Other("x".to_string()), 1, 10),
        node("e", ModuleType::Other("y".to_string()), 1, 10),
        node("f", ModuleType::Other("x".to_string()), 1, 10),
    ];
    assert_eq!(
        kind_distribution(&nodes),
        vec![
            KindCount { kind: ModuleType::Core, count: 2 },
            KindCount { kind: ModuleType::API, count: 1 },
            KindCount { kind: ModuleType::Other("x".to_string()), count: 2 },
            KindCount { kind: ModuleType::Other("y".to_string()), count: 1 },
        ]
    );
    assert!(kind_distribution(&Vec::new()).is_empty());
    assert_eq!(MetricsCalculator::new().calculate_kind_distribution(&nodes).len(), 4);
}

#[test]
fn extremes_of_complexity() {
    let calculator = MetricsCalculator::new();
    let nodes = vec![
        node("a", ModuleType::Core, 1, 30),
        node("b", ModuleType::Core, 1, 12),
        node("c", ModuleType::Core, 1, 45),
    ];
    let m = calculator.calculate_architecture_metrics(&nodes, &Vec::new());
    assert_eq!(m.max_complexity, 45);
    assert_eq!(m.min_complexity, 12);
    let single = calculator.calculate_architecture_metrics(&vec![node("a", ModuleType::Core, 1, 7)], &Vec::new());
    assert_eq!(single.max_complexity, 7);
    assert_eq!(single.min_complexity, 7);
}
