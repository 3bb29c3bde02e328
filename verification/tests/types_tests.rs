use rust_architecture_visualizer::types::{ModuleType, Ratio};
use rust_architecture_visualizer::{default_config, VERSION};

fn all_plain_kinds() -> Vec<ModuleType> {
    vec![
        ModuleType::Core,
        ModuleType::DataProcessing,
        ModuleType::AI,
        ModuleType::Performance,
        ModuleType::Validation,
        ModuleType::Execution,
        ModuleType::Integration,
        ModuleType::API,
        ModuleType::Processing,
        ModuleType::Scaffold,
        ModuleType::Testing,
        ModuleType::Utilities,
        ModuleType::Configuration,
        ModuleType::Database,
        ModuleType::Network,
        ModuleType::Security,
        ModuleType::Logging,
        ModuleType::Monitoring,
    ]
}

#[test]
fn every_kind_has_its_color() {
    let expected = vec![
        "#e74c3c", "#3498db", "#9b59b6", "#f39c12", "#2ecc71", "#1abc9c", "#34495e", "#e67e22",
        "#8e44ad", "#16a085", "#f1c40f", "#95a5a6", "#7f8c8d", "#27ae60", "#2980b9", "#c0392b",
        "#8e44ad", "#d35400",
    ];
    let kinds = all_plain_kinds();
    for i in 0..kinds.len() {
        assert_eq!(kinds[i].color(), expected[i]);
    }
    assert_eq!(ModuleType::Other("plugin".to_string()).color(), "#bdc3c7");
}

#[test]
fn every_kind_has_its_icon() {
    let expected = vec![
        "⚙️", "📊", "🤖", "⚡", "✅", "▶️", "🔗", "🌐", "⚙️", "🏗️", "🧪", "🛠️", "⚙️", "🗄️", "🌐",
        "🔒", "📝", "📈",
    ];
    let kinds = all_plain_kinds();
    for i in 0..kinds.len() {
        assert_eq!(kinds[i].icon(), expected[i]);
    }
    assert_eq!(ModuleType::Other("plugin".to_string()).icon(), "📦");
}

#[test]
fn every_kind_has_its_display_name() {
    let expected = vec![
        "Core",
        "Data Processing",
        "AI",
        "Performance",
        "Validation",
        "Execution",
        "Integration",
        "API",
        "Processing",
        "Scaffold",
        "Testing",
        "Utilities",
        "Configuration",
        "Database",
        "Network",
        "Security",
        "Logging",
        "Monitoring",
    ];
    let kinds = all_plain_kinds();
    for i in 0..kinds.len() {
        assert_eq!(kinds[i].display_name(), expected[i]);
    }
}

#[test]
fn other_displays_its_label() {
    assert_eq!(ModuleType::Other("Plugin Host".to_string()).display_name(), "Plugin Host");
    assert_eq!(ModuleType::Other(String::new()).display_name(), "");
}

#[test]
fn variant_index_follows_the_declaration() {
    let kinds = all_plain_kinds();
    for i in 0..kinds.len() {
        assert_eq!(kinds[i].variant_index() as usize, i);
    }
    assert_eq!(ModuleType::Other("x".to_string()).variant_index(), 18);
}

#[test]
fn same_kind_compares_variant_and_label() {
    assert!(ModuleType::Core.is_same_kind(&ModuleType::Core));
    assert!(!ModuleType::Core.is_same_kind(&ModuleType::API));
    assert!(ModuleType::Other("a".to_string()).is_same_kind(&ModuleType::Other("a".to_string())));
    assert!(!ModuleType::Other("a".to_string()).is_same_kind(&ModuleType::Other("b".to_string())));
    assert!(!ModuleType::Other("Core".to_string()).is_same_kind(&ModuleType::Core));
    assert!(!ModuleType::Core.is_same_kind(&ModuleType::Other(String::new())));
}

#[test]
fn duplicate_gives_an_equal_kind() {
    for kind in all_plain_kinds() {
        assert_eq!(kind.duplicate(), kind);
    }
    let other = ModuleType::Other("plugin".to_string());
    assert_eq!(other.duplicate(), other);
}

#[test]
fn zero_ratio_is_zero_over_one() {
    assert_eq!(Ratio::zero(), Ratio { num: 0, den: 1 });
}

#[test]
fn the_library_has_a_version_and_a_default_configuration() {
    assert_eq!(VERSION, "0.1.0");
    let config = default_config();
    assert_eq!(config.server.port, 8000);
    assert_eq!(config.scanning.scan_interval, 30);
}
