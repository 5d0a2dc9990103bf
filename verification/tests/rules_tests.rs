use codescope::rules::{
    ComplexityRule, CouplingRule, FileSizeRule, FunctionSizeRule, Rule, RuleRegistry,
    StructureStatsRule,
};
use codescope::types::{DepEdge, DepKind, ModuleIR, Severity, Symbol, SymbolKind};

fn module_with(loc: u32, symbols: Vec<Symbol>, outgoing: Vec<DepEdge>) -> ModuleIR {
    ModuleIR {
        path: "test.ts".to_string(),
        language: Some("typescript".to_string()),
        loc,
        comment_lines: 2,
        blank_lines: 1,
        symbols,
        metrics: vec![],
        outgoing,
        incoming: vec![],
    }
}

fn function_symbol(name: &str, loc: u32, complexity: Option<u32>) -> Symbol {
    Symbol {
        kind: SymbolKind::Function,
        name: name.to_string(),
        loc,
        cyclomatic_complexity: complexity,
        metrics: vec![],
    }
}

fn import_edge(target: &str) -> DepEdge {
    DepEdge {
        source: None,
        target: Some(target.to_string()),
        relation: DepKind::Import,
        strength_milli: 700,
        files: None,
    }
}

#[test]
fn test_file_size_rule_within_threshold() {
    let rule = FileSizeRule::new(300, Severity::Warning);
    let module = module_with(100, vec![], vec![]);
    let findings = rule.check_module(&module);
    assert_eq!(findings.len(), 1);
    assert_eq!(findings[0].name, "file_loc");
    assert_eq!(findings[0].value, 100);
    assert_eq!(findings[0].threshold, Some(300));
    assert!(matches!(findings[0].severity, Severity::Info));
    assert!(findings[0].message.is_none());
}

#[test]
fn test_file_size_rule_breach_message() {
    let rule = FileSizeRule::new(300, Severity::Warning);
    let module = module_with(400, vec![], vec![]);
    let findings = rule.check_module(&module);
    assert_eq!(findings.len(), 2);
    assert_eq!(findings[1].name, "file_size");
    assert!(matches!(findings[1].severity, Severity::Warning));
    assert_eq!(
        findings[1].message.as_deref(),
        Some("File has 400 lines, exceeds threshold of 300")
    );
}

#[test]
fn test_file_size_rule_error_severity() {
    let rule = FileSizeRule::new(10, Severity::Error);
    let module = module_with(50, vec![], vec![]);
    let findings = rule.check_module(&module);
    assert!(matches!(findings[1].severity, Severity::Error));
}

#[test]
fn test_function_size_rule_symbol_breach() {
    let rule = FunctionSizeRule::new(40, Severity::Warning);
    let big = function_symbol("big", 60, Some(1));
    let small = function_symbol("small", 10, Some(1));
    let breach = rule.check_symbol(&big);
    assert_eq!(breach.len(), 1);
    assert_eq!(breach[0].name, "function_size");
    assert_eq!(
        breach[0].message.as_deref(),
        Some("Function has 60 lines, exceeds threshold of 40")
    );
    assert!(rule.check_symbol(&small).is_empty());
}

#[test]
fn test_function_size_rule_module_aggregate() {
    let rule = FunctionSizeRule::new(40, Severity::Warning);
    let module = module_with(
        200,
        vec![
            function_symbol("a", 50, Some(1)),
            function_symbol("ok", 10, Some(1)),
            function_symbol("b", 60, Some(1)),
        ],
        vec![],
    );
    let findings = rule.check_module(&module);
    assert_eq!(findings.len(), 1);
    assert_eq!(findings[0].name, "large_function_count");
    assert_eq!(findings[0].value, 2);
    assert_eq!(
        findings[0].message.as_deref(),
        Some("2 functions exceed 40 lines: a (50 LOC), b (60 LOC)")
    );
}

#[test]
fn test_complexity_rule_symbol_breach() {
    let rule = ComplexityRule::new(10, Severity::Warning);
    let complex = function_symbol("gnarly", 20, Some(15));
    let findings = rule.check_symbol(&complex);
    assert_eq!(findings.len(), 1);
    assert_eq!(findings[0].name, "cyclomatic_complexity");
    assert_eq!(findings[0].value, 15);
    assert_eq!(
        findings[0].message.as_deref(),
        Some("Cyclomatic complexity 15 exceeds threshold of 10")
    );
    let unknown = function_symbol("noScore", 20, None);
    assert!(rule.check_symbol(&unknown).is_empty());
}

#[test]
fn test_complexity_rule_module_aggregate() {
    let rule = ComplexityRule::new(10, Severity::Warning);
    let module = module_with(
        100,
        vec![
            function_symbol("a", 10, Some(12)),
            function_symbol("b", 10, Some(3)),
        ],
        vec![],
    );
    let findings = rule.check_module(&module);
    assert_eq!(findings.len(), 1);
    assert_eq!(findings[0].name, "high_complexity_count");
    assert_eq!(
        findings[0].message.as_deref(),
        Some("1 functions exceed complexity threshold of 10: a (complexity: 12)")
    );
}

#[test]
fn test_coupling_rule_reports_three_counts() {
    let rule = CouplingRule::new(2, 15, Severity::Warning);
    let module = module_with(
        100,
        vec![],
        vec![import_edge("a"), import_edge("b"), import_edge("c")],
    );
    let findings = rule.check_module(&module);
    assert_eq!(findings.len(), 3);
    assert_eq!(findings[0].name, "fan_out");
    assert_eq!(findings[0].value, 3);
    assert!(matches!(findings[0].severity, Severity::Warning));
    assert_eq!(
        findings[0].message.as_deref(),
        Some("Module has 3 dependencies, exceeds threshold of 2")
    );
    assert_eq!(findings[1].name, "fan_in");
    assert_eq!(findings[1].value, 0);
    assert!(matches!(findings[1].severity, Severity::Info));
    assert_eq!(findings[2].name, "import_count");
    assert!(matches!(findings[2].severity, Severity::Info));
}

#[test]
fn test_structure_stats_rule_counts_by_kind() {
    let rule = StructureStatsRule::new(1, 30, Severity::Warning);
    let mut symbols = vec![
        function_symbol("f1", 5, Some(1)),
        function_symbol("f2", 5, Some(1)),
    ];
    symbols.push(Symbol {
        kind: SymbolKind::Interface,
        name: "I".to_string(),
        loc: 3,
        cyclomatic_complexity: None,
        metrics: vec![],
    });
    symbols.push(Symbol {
        kind: SymbolKind::Enum,
        name: "E".to_string(),
        loc: 3,
        cyclomatic_complexity: None,
        metrics: vec![],
    });
    let module = module_with(50, symbols, vec![]);
    let findings = rule.check_module(&module);
    assert_eq!(findings[0].name, "function_count");
    assert_eq!(findings[0].value, 2);
    assert!(matches!(findings[0].severity, Severity::Warning));
    assert_eq!(
        findings[0].message.as_deref(),
        Some("File has 2 functions, exceeds threshold of 1")
    );
    assert_eq!(findings[1].name, "class_count");
    assert_eq!(findings[1].value, 0);
    assert_eq!(findings[2].name, "interface_count");
    assert_eq!(findings[2].value, 1);
    assert_eq!(findings[3].name, "type_definition_count");
    assert_eq!(findings[3].value, 2);
    assert!(matches!(findings[3].severity, Severity::Info));
    assert_eq!(findings[4].name, "comment_lines");
    assert_eq!(findings[5].name, "blank_lines");
}

#[test]
fn test_registry_concatenates_in_registration_order() {
    let mut registry = RuleRegistry::new();
    registry.register(Rule::FileSize(FileSizeRule::new(300, Severity::Warning)));
    registry.register(Rule::Coupling(CouplingRule::new(7, 15, Severity::Warning)));
    let module = module_with(100, vec![], vec![]);
    let findings = registry.check_module(&module);
    assert_eq!(findings.len(), 4);
    assert_eq!(findings[0].name, "file_loc");
    assert_eq!(findings[1].name, "fan_out");
    assert_eq!(findings[2].name, "fan_in");
    assert_eq!(findings[3].name, "import_count");
}

#[test]
fn test_raising_threshold_only_removes_breaches() {
    let module = module_with(
        350,
        vec![function_symbol("big", 60, Some(12))],
        vec![],
    );
    let strict = FileSizeRule::new(300, Severity::Warning);
    let lax = FileSizeRule::new(400, Severity::Warning);
    let strict_breaches: Vec<_> = strict
        .check_module(&module)
        .into_iter()
        .filter(|f| !matches!(f.severity, Severity::Info))
        .map(|f| f.name)
        .collect();
    let lax_breaches: Vec<_> = lax
        .check_module(&module)
        .into_iter()
        .filter(|f| !matches!(f.severity, Severity::Info))
        .map(|f| f.name)
        .collect();
    assert!(lax_breaches.iter().all(|n| strict_breaches.contains(n)));
    assert!(lax_breaches.is_empty());
    assert_eq!(strict_breaches, vec!["file_size".to_string()]);

    let strict_fn = FunctionSizeRule::new(40, Severity::Warning);
    let lax_fn = FunctionSizeRule::new(80, Severity::Warning);
    assert_eq!(strict_fn.check_module(&module).len(), 1);
    assert!(lax_fn.check_module(&module).is_empty());
}
