use codescope::typescript::{ParseError, TypeScriptAdapter};
use codescope::types::SymbolKind;

#[test]
fn test_complexity_simple_function() {
    let adapter = TypeScriptAdapter::new_typescript();
    let source = r#"
function simple() {
    return 42;
}
"#;
    let result = adapter.parse("test.ts", source);
    assert!(result.is_ok());

    let module = result.unwrap();
    assert_eq!(module.symbols.len(), 1);
    assert_eq!(module.symbols[0].name, "simple");
    assert_eq!(module.symbols[0].cyclomatic_complexity, Some(1));
}

#[test]
fn test_complexity_with_if_statements() {
    let adapter = TypeScriptAdapter::new_typescript();
    let source = r#"
function withIf(x: number) {
    if (x > 0) {
        return x;
    } else {
        return -x;
    }
}
"#;
    let result = adapter.parse("test.ts", source);
    let module = result.unwrap();

    assert_eq!(module.symbols[0].cyclomatic_complexity, Some(2)); // 1 base + 1 if
}

#[test]
fn test_complexity_with_loops() {
    let adapter = TypeScriptAdapter::new_typescript();
    let source = r#"
function withLoop(arr: number[]) {
    let sum = 0;
    for (let i = 0; i < arr.length; i++) {
        sum += arr[i];
    }
    return sum;
}
"#;
    let result = adapter.parse("test.ts", source);
    let module = result.unwrap();

    assert_eq!(module.symbols[0].cyclomatic_complexity, Some(2)); // 1 base + 1 for
}

#[test]
fn test_complexity_with_switch() {
    let adapter = TypeScriptAdapter::new_typescript();
    let source = r#"
function withSwitch(x: number) {
    switch (x) {
        case 1:
            return "one";
        case 2:
            return "two";
        default:
            return "other";
    }
}
"#;
    let result = adapter.parse("test.ts", source);
    let module = result.unwrap();

    // 1 base + 2 cases (default doesn't count in standard cyclomatic complexity)
    assert_eq!(module.symbols[0].cyclomatic_complexity, Some(3));
}

#[test]
fn test_complexity_with_logical_operators() {
    let adapter = TypeScriptAdapter::new_typescript();
    let source = r#"
function withLogical(x: number, y: number) {
    if (x > 0 && y > 0) {
        return x + y;
    }
    return 0;
}
"#;
    let result = adapter.parse("test.ts", source);
    let module = result.unwrap();

    // 1 base + 1 if + 1 &&
    assert_eq!(module.symbols[0].cyclomatic_complexity, Some(3));
}

#[test]
fn test_complexity_complex_function() {
    let adapter = TypeScriptAdapter::new_typescript();
    let source = r#"
function complex(x: number, y: number, z: number) {
    if (x > 0) {
        if (y > 0) {
            if (z > 0) {
                return x + y + z;
            }
        }
    } else if (x < 0) {
        return -x;
    }

    for (let i = 0; i < 10; i++) {
        if (i % 2 === 0) {
            continue;
        }
    }

    return 0;
}
"#;
    let result = adapter.parse("test.ts", source);
    let module = result.unwrap();

    // 1 base + 3 nested ifs + 1 else if + 1 for + 1 inner if = 7
    assert_eq!(module.symbols[0].cyclomatic_complexity, Some(7));
}

#[test]
fn test_non_function_symbols_have_no_complexity() {
    let adapter = TypeScriptAdapter::new_typescript();
    let source = r#"
class MyClass {
    constructor() {}
}

interface MyInterface {
    x: number;
}

type MyType = string | number;
"#;
    let result = adapter.parse("test.ts", source);
    let module = result.unwrap();

    for symbol in &module.symbols {
        if symbol.kind != SymbolKind::Function {
            assert_eq!(symbol.cyclomatic_complexity, None);
        }
    }
}

#[test]
fn test_parse_records_imports_and_line_counts() {
    let adapter = TypeScriptAdapter::new_typescript();
    let source = "import { a } from './other';\n\n// helper\nexport function f() {\n    return a;\n}\n";
    let module = adapter.parse("src/main.ts", source).unwrap();

    assert_eq!(module.path, "src/main.ts");
    assert_eq!(module.language.as_deref(), Some("typescript"));
    assert_eq!(module.outgoing.len(), 1);
    assert_eq!(module.outgoing[0].target.as_deref(), Some("./other"));
    assert_eq!(module.outgoing[0].strength_milli, 700);
    assert!(module.outgoing[0].source.is_none());
    let total = module.loc + module.comment_lines + module.blank_lines;
    assert_eq!(total, source.lines().count() as u32);
    assert_eq!(module.comment_lines, 1);
    assert_eq!(module.blank_lines, 1);
}

#[test]
fn test_every_symbol_spans_at_least_one_line() {
    let adapter = TypeScriptAdapter::new_typescript();
    let source = "enum E { A }\nconst x = 1;\nfunction g() { return 0; }\nclass C {}\n";
    let module = adapter.parse("test.ts", source).unwrap();
    assert!(!module.symbols.is_empty());
    for symbol in &module.symbols {
        assert!(symbol.loc >= 1);
    }
}

#[test]
fn test_nested_function_does_not_inflate_outer_count() {
    let adapter = TypeScriptAdapter::new_typescript();
    let source = r#"
function outer() {
    function inner(x: number) {
        if (x > 0) {
            return x;
        }
        return 0;
    }
    return inner(1);
}
"#;
    let module = adapter.parse("test.ts", source).unwrap();
    let outer = module.symbols.iter().find(|s| s.name == "outer").unwrap();
    let inner = module.symbols.iter().find(|s| s.name == "inner").unwrap();
    assert_eq!(outer.cyclomatic_complexity, Some(1));
    assert_eq!(inner.cyclomatic_complexity, Some(2));
}

#[test]
fn test_match_ext_lists_supported_extensions() {
    let adapter = TypeScriptAdapter::new_typescript();
    let exts = adapter.match_ext();
    assert_eq!(exts, vec!["ts".to_string(), "tsx".to_string(), "js".to_string()]);
}

#[test]
fn test_parse_error_labels_are_descriptive() {
    assert!(!ParseError::Grammar.label().is_empty());
    assert!(!ParseError::Language.label().is_empty());
    assert!(!ParseError::TooLarge.label().is_empty());
}

#[test]
fn test_other_grammars_parse() {
    let tsx = TypeScriptAdapter::new_tsx();
    let module = tsx
        .parse("view.tsx", "function App() {\n    return <div/>;\n}\n")
        .unwrap();
    assert_eq!(module.symbols[0].name, "App");
    assert_eq!(module.language.as_deref(), Some("tsx"));

    let js = TypeScriptAdapter::new_javascript();
    let module = js
        .parse("util.js", "function add2(a, b) {\n    return a + b;\n}\n")
        .unwrap();
    assert_eq!(module.symbols[0].name, "add2");
    assert_eq!(module.language.as_deref(), Some("javascript"));
}
