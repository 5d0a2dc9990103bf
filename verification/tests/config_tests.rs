use codescope::config::{parse_severity, Config};
use codescope::rules::Rule;
use codescope::types::Severity;

#[test]
fn test_default_config() {
    let config = Config::default();
    assert_eq!(config.rules.max_file_loc, 300);
    assert_eq!(config.rules.max_function_loc, 40);
}

#[test]
fn test_parse_severity() {
    assert!(matches!(parse_severity("Error"), Severity::Error));
    assert!(matches!(parse_severity("warning"), Severity::Warning));
    assert!(matches!(parse_severity("info"), Severity::Info));
}

#[test]
fn test_parse_severity_unrecognized_defaults_to_info() {
    assert!(matches!(parse_severity(""), Severity::Info));
    assert!(matches!(parse_severity("fatal"), Severity::Info));
    assert!(matches!(parse_severity("ERROR"), Severity::Error));
    assert!(matches!(parse_severity("WaRnInG"), Severity::Warning));
}

#[test]
fn test_default_config_remaining_thresholds() {
    let config = Config::default();
    assert_eq!(config.rules.max_functions_per_file, 20);
    assert_eq!(config.rules.max_types_per_file, 30);
    assert_eq!(config.rules.max_fan_out, 7);
    assert_eq!(config.rules.max_imports, 15);
    assert_eq!(config.rules.severity.max_file_loc, "Warning");
}

#[test]
fn test_load_or_default_falls_back() {
    let fallback = Config::load_or_default(None);
    assert_eq!(fallback.rules.max_file_loc, 300);
    let mut custom = Config::default();
    custom.rules.max_file_loc = 123;
    let kept = Config::load_or_default(Some(custom));
    assert_eq!(kept.rules.max_file_loc, 123);
}

#[test]
fn test_to_rule_registry_builds_four_rules() {
    let config = Config::default();
    let registry = config.to_rule_registry();
    assert_eq!(registry.rules.len(), 4);
    assert!(matches!(registry.rules[0], Rule::FileSize(_)));
    assert!(matches!(registry.rules[1], Rule::FunctionSize(_)));
    assert!(matches!(registry.rules[2], Rule::Coupling(_)));
    assert!(matches!(registry.rules[3], Rule::StructureStats(_)));
}
