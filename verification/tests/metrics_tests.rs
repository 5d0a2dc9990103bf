use codescope::metrics::{
    calculate_complexity, calculate_symbol_complexity, generate_suggestions, metric_category,
    SCORE_SCALE,
};
use codescope::types::{ModuleIR, Symbol, SymbolKind};

fn empty_module(loc: u32) -> ModuleIR {
    ModuleIR {
        path: "test.ts".to_string(),
        language: Some("typescript".to_string()),
        loc,
        comment_lines: 10,
        blank_lines: 5,
        symbols: vec![],
        metrics: vec![],
        outgoing: vec![],
        incoming: vec![],
    }
}

fn function_symbol(name: &str, loc: u32) -> Symbol {
    Symbol {
        kind: SymbolKind::Function,
        name: name.to_string(),
        loc,
        cyclomatic_complexity: None,
        metrics: vec![],
    }
}

#[test]
fn test_calculate_complexity_empty_module() {
    let mut module = empty_module(0);
    module.comment_lines = 0;
    module.blank_lines = 0;

    let complexity = calculate_complexity(&module);
    assert_eq!(complexity, 0);
}

#[test]
fn test_calculate_complexity_with_symbols() {
    let mut module = empty_module(100);
    module.symbols.push(function_symbol("test", 50));

    let complexity = calculate_complexity(&module);
    assert!(complexity > 0);
    assert!(complexity <= SCORE_SCALE);
}

#[test]
fn test_calculate_complexity_exact_value() {
    // density part: 400000 * 1 / 100 = 4000
    // size part: 600000 * 100 / (100 + 50) = 400000
    let mut module = empty_module(100);
    module.symbols.push(function_symbol("test", 50));
    assert_eq!(calculate_complexity(&module), 404000);
}

#[test]
fn test_calculate_symbol_complexity() {
    let small_complexity = calculate_symbol_complexity(5);
    let large_complexity = calculate_symbol_complexity(100);

    assert!(small_complexity < large_complexity);
    assert!(large_complexity <= SCORE_SCALE);
}

#[test]
fn test_calculate_symbol_complexity_exact_value() {
    // 1000000 * 30 / (30 + 30) is exactly the half point.
    assert_eq!(calculate_symbol_complexity(30), 500000);
    assert_eq!(calculate_symbol_complexity(0), 0);
}

#[test]
fn test_generate_suggestions_large_file() {
    let module = empty_module(600);
    let suggestions = generate_suggestions(&module, 2, 3);
    assert!(suggestions.iter().any(|s| s.contains("Large file")));
}

#[test]
fn metrics_test_test_generate_suggestions_high_fanout() {
    let module = empty_module(100);
    let suggestions = generate_suggestions(&module, 2, 15);
    assert!(suggestions.iter().any(|s| s.contains("fan-out")));
}

#[test]
fn test_generate_suggestions_large_symbol() {
    let mut module = empty_module(200);
    module.symbols.push(function_symbol("largeFunction", 100));

    let suggestions = generate_suggestions(&module, 2, 3);
    assert!(suggestions
        .iter()
        .any(|s| s.contains("largeFunction") && s.contains("LOC")));
}

#[test]
fn test_generate_suggestions_exact_text() {
    let module = empty_module(100);
    let suggestions = generate_suggestions(&module, 12, 3);
    assert_eq!(
        suggestions,
        vec!["High fan-in (12) - consider extracting shared utilities".to_string()]
    );
}

#[test]
fn test_metric_category() {
    assert_eq!(metric_category("file_loc"), "Size");
    assert_eq!(metric_category("comment_lines"), "Size");
    assert_eq!(metric_category("function_count"), "Structure");
    assert_eq!(metric_category("interface_count"), "Structure");
    assert_eq!(metric_category("fan_out"), "Coupling");
    assert_eq!(metric_category("import_count"), "Coupling");
    assert_eq!(metric_category("something_else"), "Other");
}
