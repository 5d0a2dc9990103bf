use codescope::analyze::{analyze_file_source, directory_totals, has_issues};
use codescope::config::Config;
use codescope::text::{u32_to_string, u64_to_string};
use codescope::typescript::TypeScriptAdapter;
use codescope::types::{ModuleIR, Severity};

#[test]
fn test_analyze_file_source_attaches_findings() {
    let adapter = TypeScriptAdapter::new_typescript();
    let registry = Config::default().to_rule_registry();
    let source = "function f() {\n    return 1;\n}\n";
    let module = analyze_file_source(&adapter, &registry, "f.ts", source).unwrap();

    assert_eq!(module.path, "f.ts");
    assert!(module.metrics.iter().any(|m| m.name == "file_loc"));
    assert!(module.metrics.iter().any(|m| m.name == "fan_out"));
    assert!(module.metrics.iter().any(|m| m.name == "function_count"));
    assert!(!has_issues(&module));
}

#[test]
fn test_analyze_file_source_flags_oversized_function() {
    let adapter = TypeScriptAdapter::new_typescript();
    let mut config = Config::default();
    config.rules.max_function_loc = 2;
    let registry = config.to_rule_registry();
    let source = "function f() {\n    let a = 1;\n    let b = 2;\n    return a + b;\n}\n";
    let module = analyze_file_source(&adapter, &registry, "f.ts", source).unwrap();

    assert!(module
        .metrics
        .iter()
        .any(|m| m.name == "large_function_count" && matches!(m.severity, Severity::Warning)));
    let f = &module.symbols[0];
    assert!(f
        .metrics
        .iter()
        .any(|m| m.name == "function_size" && matches!(m.severity, Severity::Warning)));
    assert!(has_issues(&module));
}

#[test]
fn test_directory_totals() {
    let mk = |loc: u32| ModuleIR {
        path: "x.ts".to_string(),
        language: None,
        loc,
        comment_lines: 0,
        blank_lines: 0,
        symbols: vec![],
        metrics: vec![],
        outgoing: vec![],
        incoming: vec![],
    };
    let modules = vec![mk(10), mk(20), mk(30)];
    let totals = directory_totals(&modules);
    assert_eq!(totals.files, 3);
    assert_eq!(totals.loc, 60);

    let empty: Vec<ModuleIR> = vec![];
    let none = directory_totals(&empty);
    assert_eq!(none.files, 0);
    assert_eq!(none.loc, 0);
}

#[test]
fn test_decimal_rendering() {
    assert_eq!(u64_to_string(0), "0");
    assert_eq!(u64_to_string(7), "7");
    assert_eq!(u64_to_string(12345), "12345");
    assert_eq!(u64_to_string(u64::MAX), "18446744073709551615");
    assert_eq!(u32_to_string(400), "400");
}
