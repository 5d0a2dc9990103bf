use codescope::json::{module_from_json, module_to_json, JsonValue};
use codescope::types::{DepEdge, DepKind, ModuleIR, QualityMetric, Severity, Symbol, SymbolKind};

fn sample_module() -> ModuleIR {
    ModuleIR {
        path: "src/app.ts".to_string(),
        language: Some("typescript".to_string()),
        loc: 120,
        comment_lines: 14,
        blank_lines: 6,
        symbols: vec![
            Symbol {
                kind: SymbolKind::Function,
                name: "run".to_string(),
                loc: 42,
                cyclomatic_complexity: Some(7),
                metrics: vec![QualityMetric {
                    name: "function_size".to_string(),
                    value: 42,
                    threshold: Some(40),
                    severity: Severity::Warning,
                    message: Some("Function has 42 lines, exceeds threshold of 40".to_string()),
                }],
            },
            Symbol {
                kind: SymbolKind::Interface,
                name: "Options".to_string(),
                loc: 9,
                cyclomatic_complexity: None,
                metrics: vec![],
            },
        ],
        metrics: vec![QualityMetric {
            name: "file_loc".to_string(),
            value: 120,
            threshold: Some(300),
            severity: Severity::Info,
            message: None,
        }],
        outgoing: vec![DepEdge {
            source: None,
            target: Some("./options".to_string()),
            relation: DepKind::Import,
            strength_milli: 700,
            files: None,
        }],
        incoming: vec![DepEdge {
            source: Some("src/main.ts".to_string()),
            target: Some("src/app.ts".to_string()),
            relation: DepKind::Import,
            strength_milli: 700,
            files: Some(1),
        }],
    }
}

fn assert_modules_equal(a: &ModuleIR, b: &ModuleIR) {
    assert_eq!(a.path, b.path);
    assert_eq!(a.language, b.language);
    assert_eq!(a.loc, b.loc);
    assert_eq!(a.comment_lines, b.comment_lines);
    assert_eq!(a.blank_lines, b.blank_lines);
    assert_eq!(a.symbols.len(), b.symbols.len());
    for (x, y) in a.symbols.iter().zip(b.symbols.iter()) {
        assert_eq!(x.kind, y.kind);
        assert_eq!(x.name, y.name);
        assert_eq!(x.loc, y.loc);
        assert_eq!(x.cyclomatic_complexity, y.cyclomatic_complexity);
        assert_eq!(x.metrics.len(), y.metrics.len());
        for (mx, my) in x.metrics.iter().zip(y.metrics.iter()) {
            assert_eq!(mx.name, my.name);
            assert_eq!(mx.value, my.value);
            assert_eq!(mx.threshold, my.threshold);
            assert_eq!(mx.severity, my.severity);
            assert_eq!(mx.message, my.message);
        }
    }
    assert_eq!(a.metrics.len(), b.metrics.len());
    for (mx, my) in a.metrics.iter().zip(b.metrics.iter()) {
        assert_eq!(mx.name, my.name);
        assert_eq!(mx.value, my.value);
        assert_eq!(mx.threshold, my.threshold);
        assert_eq!(mx.severity, my.severity);
        assert_eq!(mx.message, my.message);
    }
    assert_eq!(a.outgoing.len(), b.outgoing.len());
    for (ex, ey) in a.outgoing.iter().zip(b.outgoing.iter()) {
        assert_eq!(ex.source, ey.source);
        assert_eq!(ex.target, ey.target);
        assert_eq!(ex.relation, ey.relation);
        assert_eq!(ex.strength_milli, ey.strength_milli);
        assert_eq!(ex.files, ey.files);
    }
    assert_eq!(a.incoming.len(), b.incoming.len());
    for (ex, ey) in a.incoming.iter().zip(b.incoming.iter()) {
        assert_eq!(ex.source, ey.source);
        assert_eq!(ex.target, ey.target);
        assert_eq!(ex.relation, ey.relation);
        assert_eq!(ex.strength_milli, ey.strength_milli);
        assert_eq!(ex.files, ey.files);
    }
}

#[test]
fn test_module_round_trips_through_interchange_format() {
    let module = sample_module();
    let doc = module_to_json(&module);
    let back = module_from_json(&doc).expect("round trip must succeed");
    assert_modules_equal(&module, &back);
}

#[test]
fn test_round_trip_without_optional_fields() {
    let mut module = sample_module();
    module.language = None;
    module.symbols[0].cyclomatic_complexity = None;
    module.incoming[0].files = None;
    module.metrics[0].threshold = None;
    let doc = module_to_json(&module);
    let back = module_from_json(&doc).expect("round trip must succeed");
    assert_modules_equal(&module, &back);
}

#[test]
fn test_reader_ignores_field_order() {
    let module = sample_module();
    let doc = module_to_json(&module);
    let reordered = match doc {
        JsonValue::Object(mut fields) => {
            fields.reverse();
            JsonValue::Object(fields)
        }
        other => other,
    };
    let back = module_from_json(&reordered).expect("reordered document must still read");
    assert_modules_equal(&sample_module(), &back);
}

#[test]
fn test_malformed_document_reads_as_nothing() {
    assert!(module_from_json(&JsonValue::Int(3)).is_none());
    let missing_path = JsonValue::Object(vec![("loc".to_string(), JsonValue::Int(1))]);
    assert!(module_from_json(&missing_path).is_none());
}
