use vstd::prelude::*;
use crate::text::str_eq;
use crate::types::{
    DepEdgeV, DepKind, ModuleIRV, QualityMetricV, Severity, SymbolKind, SymbolV, spec_kind_label,
};

verus! {

/// The mathematical value of a document in the interchange format: integer
/// numbers, text, arrays and objects — the JSON-compatible subset the module
/// record needs. An object is a sequence of key/value fields; a reader takes
/// the first field under a key, so field order never changes what a document
/// means.
#[verifier::ext_equal]
pub enum JsonV {
    Int(u64),
    Text(Seq<char>),
    List(Seq<JsonV>),
    Object(Seq<(Seq<char>, JsonV)>),
}

/// The first value under a key in an object's fields.
pub open spec fn obj_get(fields: Seq<(Seq<char>, JsonV)>, key: Seq<char>) -> Option<JsonV>
    decreases fields,
{
    if fields.len() == 0 {
        None
    } else if fields[0].0 == key {
        Some(fields[0].1)
    } else {
        obj_get(fields.skip(1), key)
    }
}

/// The lowercase label of a severity.
pub open spec fn spec_severity_label(s: Severity) -> Seq<char> {
    match s {
        Severity::Info => "info"@,
        Severity::Warning => "warning"@,
        Severity::Error => "error"@,
    }
}

/// The severity a label denotes.
pub open spec fn spec_severity_from_label(s: Seq<char>) -> Option<Severity> {
    if s == "info"@ {
        Some(Severity::Info)
    } else if s == "warning"@ {
        Some(Severity::Warning)
    } else if s == "error"@ {
        Some(Severity::Error)
    } else {
        None
    }
}

/// The lowercase label of a dependency relation.
pub open spec fn spec_relation_label(k: DepKind) -> Seq<char> {
    match k {
        DepKind::Import => "import"@,
        DepKind::Use => "use"@,
        DepKind::Inherit => "inherit"@,
        DepKind::Aggregate => "aggregate"@,
        DepKind::Compose => "compose"@,
    }
}

/// The dependency relation a label denotes.
pub open spec fn spec_relation_from_label(s: Seq<char>) -> Option<DepKind> {
    if s == "import"@ {
        Some(DepKind::Import)
    } else if s == "use"@ {
        Some(DepKind::Use)
    } else if s == "inherit"@ {
        Some(DepKind::Inherit)
    } else if s == "aggregate"@ {
        Some(DepKind::Aggregate)
    } else if s == "compose"@ {
        Some(DepKind::Compose)
    } else {
        None
    }
}

/// The symbol kind a label denotes.
pub open spec fn spec_kind_from_label(s: Seq<char>) -> Option<SymbolKind> {
    if s == "class"@ {
        Some(SymbolKind::Class)
    } else if s == "function"@ {
        Some(SymbolKind::Function)
    } else if s == "const"@ {
        Some(SymbolKind::Const)
    } else if s == "variable"@ {
        Some(SymbolKind::Variable)
    } else if s == "interface"@ {
        Some(SymbolKind::Interface)
    } else if s == "type"@ {
        Some(SymbolKind::Type)
    } else if s == "enum"@ {
        Some(SymbolKind::Enum)
    } else {
        None
    }
}

/// The document of one finding: name, value, severity, and the optional
/// threshold and message, their keys left out when absent.
pub open spec fn spec_metric_to_json(m: QualityMetricV) -> JsonV {
    let base = seq![("name"@, JsonV::Text(m.name)), ("value"@, JsonV::Int(m.value))];
    let with_threshold = match m.threshold {
        Some(t) => base.push(("threshold"@, JsonV::Int(t))),
        None => base,
    };
    let with_sev = with_threshold.push(
        ("severity"@, JsonV::Text(spec_severity_label(m.severity))),
    );
    JsonV::Object(
        match m.message {
            Some(msg) => with_sev.push(("message"@, JsonV::Text(msg))),
            None => with_sev,
        },
    )
}

/// Read one finding back from its document.
pub open spec fn spec_metric_from_json(j: JsonV) -> Option<QualityMetricV> {
    match j {
        JsonV::Object(fields) => {
            match (obj_get(fields, "name"@), obj_get(fields, "value"@), obj_get(
                fields,
                "severity"@,
            )) {
                (
                    Some(JsonV::Text(name_s)),
                    Some(JsonV::Int(value_n)),
                    Some(JsonV::Text(sev_s)),
                ) => match spec_severity_from_label(sev_s) {
                    Some(sev) => {
                        let threshold = match obj_get(fields, "threshold"@) {
                            Some(JsonV::Int(t)) => Some(t),
                            _ => None,
                        };
                        let message = match obj_get(fields, "message"@) {
                            Some(JsonV::Text(msg)) => Some(msg),
                            _ => None,
                        };
                        Some(
                            QualityMetricV {
                                name: name_s,
                                value: value_n,
                                threshold,
                                severity: sev,
                                message,
                            },
                        )
                    },
                    None => None,
                },
                _ => None,
            }
        },
        _ => None,
    }
}

/// The documents of a sequence of findings.
pub open spec fn spec_metrics_to_json(ms: Seq<QualityMetricV>) -> Seq<JsonV>
    decreases ms,
{
    if ms.len() == 0 {
        Seq::empty()
    } else {
        seq![spec_metric_to_json(ms[0])].add(spec_metrics_to_json(ms.skip(1)))
    }
}

/// Read a sequence of findings back; one bad element spoils the list.
pub open spec fn spec_metrics_from_json(js: Seq<JsonV>) -> Option<Seq<QualityMetricV>>
    decreases js,
{
    if js.len() == 0 {
        Some(Seq::empty())
    } else {
        match spec_metric_from_json(js[0]) {
            Some(m) => match spec_metrics_from_json(js.skip(1)) {
                Some(rest) => Some(seq![m].add(rest)),
                None => None,
            },
            None => None,
        }
    }
}

/// Appending a field changes a lookup only for its own key, and only when
/// the key was absent.
pub proof fn lemma_obj_get_push(
    fields: Seq<(Seq<char>, JsonV)>,
    key: Seq<char>,
    k: Seq<char>,
    v: JsonV,
)
    ensures
        obj_get(fields.push((k, v)), key) == if obj_get(fields, key) is Some {
            obj_get(fields, key)
        } else if k == key {
            Some(v)
        } else {
            None
        },
    decreases fields,
{
    reveal_with_fuel(obj_get, 3);
    if fields.len() == 0 {
        assert(fields.push((k, v))[0] == (k, v));
        assert(fields.push((k, v)).skip(1) =~= Seq::<(Seq<char>, JsonV)>::empty());
    } else {
        assert(fields.push((k, v))[0] == fields[0]);
        assert(fields.push((k, v)).skip(1) =~= fields.skip(1).push((k, v)));
        lemma_obj_get_push(fields.skip(1), key, k, v);
    }
}

/// A finding round-trips through its document.
pub proof fn lemma_metric_round_trip(m: QualityMetricV)
    ensures
        spec_metric_from_json(spec_metric_to_json(m)) == Some(m),
{
    reveal_strlit("name");
    reveal_strlit("value");
    reveal_strlit("threshold");
    reveal_strlit("severity");
    reveal_strlit("message");
    reveal_strlit("info");
    reveal_strlit("warning");
    reveal_strlit("error");
    reveal_with_fuel(obj_get, 4);
    let base = seq![("name"@, JsonV::Text(m.name)), ("value"@, JsonV::Int(m.value))];
    let with_threshold = match m.threshold {
        Some(t) => base.push(("threshold"@, JsonV::Int(t))),
        None => base,
    };
    let with_sev = with_threshold.push(
        ("severity"@, JsonV::Text(spec_severity_label(m.severity))),
    );
    let fields = match m.message {
        Some(msg) => with_sev.push(("message"@, JsonV::Text(msg))),
        None => with_sev,
    };
    assert(spec_metric_to_json(m) == JsonV::Object(fields));
    assert forall|key: Seq<char>| true implies #[trigger] obj_get(with_threshold, key) == (
    if key == "name"@ {
        Some(JsonV::Text(m.name))
    } else if key == "value"@ {
        Some(JsonV::Int(m.value))
    } else if key == "threshold"@ && m.threshold is Some {
        Some(JsonV::Int(m.threshold->0))
    } else {
        None
    }) by {
        assert(base.skip(1) =~= seq![("value"@, JsonV::Int(m.value))]);
        match m.threshold {
            Some(t) => {
                lemma_obj_get_push(base, key, "threshold"@, JsonV::Int(t));
            },
            None => {},
        }
    }
    assert forall|key: Seq<char>| true implies #[trigger] obj_get(fields, key) == (
    if key == "name"@ {
        Some(JsonV::Text(m.name))
    } else if key == "value"@ {
        Some(JsonV::Int(m.value))
    } else if key == "threshold"@ && m.threshold is Some {
        Some(JsonV::Int(m.threshold->0))
    } else if key == "severity"@ {
        Some(JsonV::Text(spec_severity_label(m.severity)))
    } else if key == "message"@ && m.message is Some {
        Some(JsonV::Text(m.message->0))
    } else {
        None
    }) by {
        lemma_obj_get_push(
            with_threshold,
            key,
            "severity"@,
            JsonV::Text(spec_severity_label(m.severity)),
        );
        match m.message {
            Some(msg) => {
                lemma_obj_get_push(with_sev, key, "message"@, JsonV::Text(msg));
            },
            None => {},
        }
    }
    assert(spec_severity_from_label(spec_severity_label(m.severity)) == Some(m.severity)) by {
        match m.severity {
            Severity::Info => {
                assert(spec_severity_label(m.severity) == "info"@);
            },
            Severity::Warning => {
                assert(spec_severity_label(m.severity) == "warning"@);
                assert("warning"@.len() == 7 && "info"@.len() == 4);
            },
            Severity::Error => {
                assert(spec_severity_label(m.severity) == "error"@);
                assert("error"@.len() == 5 && "info"@.len() == 4 && "warning"@.len() == 7);
            },
        }
    }
    assert("name"@.len() == 4);
    assert("value"@.len() == 5);
    assert("threshold"@.len() == 9);
    assert("severity"@.len() == 8);
    assert("message"@.len() == 7);
    assert(obj_get(fields, "name"@) == Some(JsonV::Text(m.name)));
    assert(obj_get(fields, "value"@) == Some(JsonV::Int(m.value)));
    assert(obj_get(fields, "severity"@) == Some(
        JsonV::Text(spec_severity_label(m.severity)),
    ));
    assert(m.threshold matches Some(t) ==> obj_get(fields, "threshold"@) == Some(
        JsonV::Int(t),
    ));
    assert(m.threshold is None ==> obj_get(fields, "threshold"@) is None);
    assert(m.message matches Some(msg) ==> obj_get(fields, "message"@) == Some(
        JsonV::Text(msg),
    ));
    assert(m.message is None ==> obj_get(fields, "message"@) is None);
    assert(spec_metric_from_json(spec_metric_to_json(m)) matches Some(m2) && m2 =~~= m);
}

/// A sequence of findings round-trips through its documents.
pub proof fn lemma_metrics_round_trip(ms: Seq<QualityMetricV>)
    ensures
        spec_metrics_from_json(spec_metrics_to_json(ms)) == Some(ms),
    decreases ms,
{
    if ms.len() == 0 {
        assert(spec_metrics_from_json(spec_metrics_to_json(ms)) =~~= Some(ms));
    } else {
        lemma_metric_round_trip(ms[0]);
        lemma_metrics_round_trip(ms.skip(1));
        let js = spec_metrics_to_json(ms);
        assert(js[0] == spec_metric_to_json(ms[0]));
        assert(js.skip(1) =~= spec_metrics_to_json(ms.skip(1)));
        assert(seq![ms[0]].add(ms.skip(1)) =~= ms);
    }
}

/// The document of one symbol: kind label, name, line span, the branching
/// complexity when present, and the symbol's findings.
pub open spec fn spec_symbol_to_json(s: SymbolV) -> JsonV {
    let base = seq![
        ("kind"@, JsonV::Text(spec_kind_label(s.kind))),
        ("name"@, JsonV::Text(s.name)),
        ("loc"@, JsonV::Int(s.loc as u64)),
    ];
    let with_cc = match s.cyclomatic_complexity {
        Some(c) => base.push(("cyclomatic_complexity"@, JsonV::Int(c as u64))),
        None => base,
    };
    JsonV::Object(with_cc.push(("metrics"@, JsonV::List(spec_metrics_to_json(s.metrics)))))
}

/// Read one symbol back from its document.
pub open spec fn spec_symbol_from_json(j: JsonV) -> Option<SymbolV> {
    match j {
        JsonV::Object(fields) => {
            match (obj_get(fields, "kind"@), obj_get(fields, "name"@), obj_get(
                fields,
                "loc"@,
            ), obj_get(fields, "metrics"@)) {
                (
                    Some(JsonV::Text(kind_s)),
                    Some(JsonV::Text(name_s)),
                    Some(JsonV::Int(loc_n)),
                    Some(JsonV::List(metric_docs)),
                ) => match (spec_kind_from_label(kind_s), spec_metrics_from_json(metric_docs)) {
                    (Some(kind), Some(ms)) => if loc_n <= u32::MAX {
                        let cc = match obj_get(fields, "cyclomatic_complexity"@) {
                            Some(JsonV::Int(c)) => if c <= u32::MAX {
                                Some(c as u32)
                            } else {
                                None
                            },
                            _ => None,
                        };
                        Some(
                            SymbolV {
                                kind,
                                name: name_s,
                                loc: loc_n as u32,
                                cyclomatic_complexity: cc,
                                metrics: ms,
                            },
                        )
                    } else {
                        None
                    },
                    _ => None,
                },
                _ => None,
            }
        },
        _ => None,
    }
}

/// The documents of a sequence of symbols.
pub open spec fn spec_symbols_to_json(ss: Seq<SymbolV>) -> Seq<JsonV>
    decreases ss,
{
    if ss.len() == 0 {
        Seq::empty()
    } else {
        seq![spec_symbol_to_json(ss[0])].add(spec_symbols_to_json(ss.skip(1)))
    }
}

/// Read a sequence of symbols back; one bad element spoils the list.
pub open spec fn spec_symbols_from_json(js: Seq<JsonV>) -> Option<Seq<SymbolV>>
    decreases js,
{
    if js.len() == 0 {
        Some(Seq::empty())
    } else {
        match spec_symbol_from_json(js[0]) {
            Some(s) => match spec_symbols_from_json(js.skip(1)) {
                Some(rest) => Some(seq![s].add(rest)),
                None => None,
            },
            None => None,
        }
    }
}

/// A kind label reads back as its kind.
proof fn lemma_kind_label_round_trip(k: SymbolKind)
    ensures
        spec_kind_from_label(spec_kind_label(k)) == Some(k),
{
    reveal_strlit("class");
    reveal_strlit("function");
    reveal_strlit("const");
    reveal_strlit("variable");
    reveal_strlit("interface");
    reveal_strlit("type");
    reveal_strlit("enum");
    assert("class"@.len() == 5);
    assert("function"@.len() == 8);
    assert("const"@.len() == 5);
    assert("variable"@.len() == 8);
    assert("interface"@.len() == 9);
    assert("type"@.len() == 4);
    assert("enum"@.len() == 4);
    assert("class"@[1] == 'l' && "const"@[1] == 'o');
    assert("function"@[0] == 'f' && "variable"@[0] == 'v');
    assert("type"@[0] == 't' && "enum"@[0] == 'e');
}

/// A symbol round-trips through its document.
pub proof fn lemma_symbol_round_trip(s: SymbolV)
    ensures
        spec_symbol_from_json(spec_symbol_to_json(s)) == Some(s),
{
    reveal_strlit("kind");
    reveal_strlit("name");
    reveal_strlit("loc");
    reveal_strlit("cyclomatic_complexity");
    reveal_strlit("metrics");
    reveal_with_fuel(obj_get, 5);
    assert("kind"@.len() == 4);
    assert("name"@.len() == 4);
    assert("loc"@.len() == 3);
    assert("cyclomatic_complexity"@.len() == 21);
    assert("metrics"@.len() == 7);
    assert("kind"@[0] == 'k' && "name"@[0] == 'n');
    let base = seq![
        ("kind"@, JsonV::Text(spec_kind_label(s.kind))),
        ("name"@, JsonV::Text(s.name)),
        ("loc"@, JsonV::Int(s.loc as u64)),
    ];
    let with_cc = match s.cyclomatic_complexity {
        Some(c) => base.push(("cyclomatic_complexity"@, JsonV::Int(c as u64))),
        None => base,
    };
    let fields = with_cc.push(("metrics"@, JsonV::List(spec_metrics_to_json(s.metrics))));
    assert(spec_symbol_to_json(s) == JsonV::Object(fields));
    assert forall|key: Seq<char>| true implies #[trigger] obj_get(with_cc, key) == (
    if key == "kind"@ {
        Some(JsonV::Text(spec_kind_label(s.kind)))
    } else if key == "name"@ {
        Some(JsonV::Text(s.name))
    } else if key == "loc"@ {
        Some(JsonV::Int(s.loc as u64))
    } else if key == "cyclomatic_complexity"@ && s.cyclomatic_complexity is Some {
        Some(JsonV::Int(s.cyclomatic_complexity->0 as u64))
    } else {
        None
    }) by {
        assert(base.skip(1) =~= seq![
            ("name"@, JsonV::Text(s.name)),
            ("loc"@, JsonV::Int(s.loc as u64)),
        ]);
        assert(base.skip(1).skip(1) =~= seq![("loc"@, JsonV::Int(s.loc as u64))]);
        match s.cyclomatic_complexity {
            Some(c) => {
                lemma_obj_get_push(base, key, "cyclomatic_complexity"@, JsonV::Int(c as u64));
            },
            None => {},
        }
    }
    assert forall|key: Seq<char>| true implies #[trigger] obj_get(fields, key) == (
    if key == "kind"@ {
        Some(JsonV::Text(spec_kind_label(s.kind)))
    } else if key == "name"@ {
        Some(JsonV::Text(s.name))
    } else if key == "loc"@ {
        Some(JsonV::Int(s.loc as u64))
    } else if key == "cyclomatic_complexity"@ && s.cyclomatic_complexity is Some {
        Some(JsonV::Int(s.cyclomatic_complexity->0 as u64))
    } else if key == "metrics"@ {
        Some(JsonV::List(spec_metrics_to_json(s.metrics)))
    } else {
        None
    }) by {
        lemma_obj_get_push(
            with_cc,
            key,
            "metrics"@,
            JsonV::List(spec_metrics_to_json(s.metrics)),
        );
    }
    lemma_kind_label_round_trip(s.kind);
    lemma_metrics_round_trip(s.metrics);
    assert(spec_symbol_from_json(spec_symbol_to_json(s)) matches Some(s2) && s2 =~~= s);
}

/// A sequence of symbols round-trips through its documents.
pub proof fn lemma_symbols_round_trip(ss: Seq<SymbolV>)
    ensures
        spec_symbols_from_json(spec_symbols_to_json(ss)) == Some(ss),
    decreases ss,
{
    if ss.len() == 0 {
        assert(spec_symbols_from_json(spec_symbols_to_json(ss)) =~~= Some(ss));
    } else {
        lemma_symbol_round_trip(ss[0]);
        lemma_symbols_round_trip(ss.skip(1));
        let js = spec_symbols_to_json(ss);
        assert(js[0] == spec_symbol_to_json(ss[0]));
        assert(js.skip(1) =~= spec_symbols_to_json(ss.skip(1)));
        assert(seq![ss[0]].add(ss.skip(1)) =~= ss);
    }
}

/// The document of one dependency edge: the optional endpoints, the relation
/// label, the strength in thousandths, and the optional file count.
pub open spec fn spec_edge_to_json(e: DepEdgeV) -> JsonV {
    let base: Seq<(Seq<char>, JsonV)> = Seq::empty();
    let with_source = match e.source {
        Some(src) => base.push(("source"@, JsonV::Text(src))),
        None => base,
    };
    let with_target = match e.target {
        Some(tgt) => with_source.push(("target"@, JsonV::Text(tgt))),
        None => with_source,
    };
    let with_rel = with_target.push(("relation"@, JsonV::Text(spec_relation_label(e.relation))))
        .push(("strength_milli"@, JsonV::Int(e.strength_milli as u64)));
    JsonV::Object(
        match e.files {
            Some(f) => with_rel.push(("files"@, JsonV::Int(f as u64))),
            None => with_rel,
        },
    )
}

/// Read one dependency edge back from its document.
pub open spec fn spec_edge_from_json(j: JsonV) -> Option<DepEdgeV> {
    match j {
        JsonV::Object(fields) => {
            match (obj_get(fields, "relation"@), obj_get(fields, "strength_milli"@)) {
                (Some(JsonV::Text(rel_s)), Some(JsonV::Int(sm))) => match spec_relation_from_label(
                    rel_s,
                ) {
                    Some(rel) => if sm <= u32::MAX {
                        let source = match obj_get(fields, "source"@) {
                            Some(JsonV::Text(src)) => Some(src),
                            _ => None,
                        };
                        let target = match obj_get(fields, "target"@) {
                            Some(JsonV::Text(tgt)) => Some(tgt),
                            _ => None,
                        };
                        let files = match obj_get(fields, "files"@) {
                            Some(JsonV::Int(f)) => if f <= u32::MAX {
                                Some(f as u32)
                            } else {
                                None
                            },
                            _ => None,
                        };
                        Some(
                            DepEdgeV {
                                source,
                                target,
                                relation: rel,
                                strength_milli: sm as u32,
                                files,
                            },
                        )
                    } else {
                        None
                    },
                    None => None,
                },
                _ => None,
            }
        },
        _ => None,
    }
}

/// The documents of a sequence of edges.
pub open spec fn spec_edges_to_json(es: Seq<DepEdgeV>) -> Seq<JsonV>
    decreases es,
{
    if es.len() == 0 {
        Seq::empty()
    } else {
        seq![spec_edge_to_json(es[0])].add(spec_edges_to_json(es.skip(1)))
    }
}

/// Read a sequence of edges back; one bad element spoils the list.
pub open spec fn spec_edges_from_json(js: Seq<JsonV>) -> Option<Seq<DepEdgeV>>
    decreases js,
{
    if js.len() == 0 {
        Some(Seq::empty())
    } else {
        match spec_edge_from_json(js[0]) {
            Some(e) => match spec_edges_from_json(js.skip(1)) {
                Some(rest) => Some(seq![e].add(rest)),
                None => None,
            },
            None => None,
        }
    }
}

/// A relation label reads back as its relation.
proof fn lemma_relation_label_round_trip(k: DepKind)
    ensures
        spec_relation_from_label(spec_relation_label(k)) == Some(k),
{
    reveal_strlit("import");
    reveal_strlit("use");
    reveal_strlit("inherit");
    reveal_strlit("aggregate");
    reveal_strlit("compose");
    assert("import"@.len() == 6);
    assert("use"@.len() == 3);
    assert("inherit"@.len() == 7);
    assert("aggregate"@.len() == 9);
    assert("compose"@.len() == 7);
    assert("inherit"@[0] == 'i' && "compose"@[0] == 'c');
}

/// An edge round-trips through its document.
pub proof fn lemma_edge_round_trip(e: DepEdgeV)
    ensures
        spec_edge_from_json(spec_edge_to_json(e)) == Some(e),
{
    reveal_strlit("source");
    reveal_strlit("target");
    reveal_strlit("relation");
    reveal_strlit("strength_milli");
    reveal_strlit("files");
    reveal_with_fuel(obj_get, 3);
    assert("source"@.len() == 6);
    assert("target"@.len() == 6);
    assert("relation"@.len() == 8);
    assert("strength_milli"@.len() == 14);
    assert("files"@.len() == 5);
    assert("source"@[0] == 's' && "target"@[0] == 't');
    let base: Seq<(Seq<char>, JsonV)> = Seq::empty();
    let with_source = match e.source {
        Some(src) => base.push(("source"@, JsonV::Text(src))),
        None => base,
    };
    let with_target = match e.target {
        Some(tgt) => with_source.push(("target"@, JsonV::Text(tgt))),
        None => with_source,
    };
    let with_rel = with_target.push(("relation"@, JsonV::Text(spec_relation_label(e.relation))))
        .push(("strength_milli"@, JsonV::Int(e.strength_milli as u64)));
    let fields = match e.files {
        Some(f) => with_rel.push(("files"@, JsonV::Int(f as u64))),
        None => with_rel,
    };
    assert(spec_edge_to_json(e) == JsonV::Object(fields));
    assert forall|key: Seq<char>| true implies #[trigger] obj_get(with_target, key) == (
    if key == "source"@ && e.source is Some {
        Some(JsonV::Text(e.source->0))
    } else if key == "target"@ && e.target is Some {
        Some(JsonV::Text(e.target->0))
    } else {
        None
    }) by {
        match e.source {
            Some(src) => {
                lemma_obj_get_push(base, key, "source"@, JsonV::Text(src));
            },
            None => {},
        }
        match e.target {
            Some(tgt) => {
                lemma_obj_get_push(with_source, key, "target"@, JsonV::Text(tgt));
            },
            None => {},
        }
    }
    assert forall|key: Seq<char>| true implies #[trigger] obj_get(fields, key) == (
    if key == "source"@ && e.source is Some {
        Some(JsonV::Text(e.source->0))
    } else if key == "target"@ && e.target is Some {
        Some(JsonV::Text(e.target->0))
    } else if key == "relation"@ {
        Some(JsonV::Text(spec_relation_label(e.relation)))
    } else if key == "strength_milli"@ {
        Some(JsonV::Int(e.strength_milli as u64))
    } else if key == "files"@ && e.files is Some {
        Some(JsonV::Int(e.files->0 as u64))
    } else {
        None
    }) by {
        lemma_obj_get_push(
            with_target,
            key,
            "relation"@,
            JsonV::Text(spec_relation_label(e.relation)),
        );
        lemma_obj_get_push(
            with_target.push(("relation"@, JsonV::Text(spec_relation_label(e.relation)))),
            key,
            "strength_milli"@,
            JsonV::Int(e.strength_milli as u64),
        );
        match e.files {
            Some(f) => {
                lemma_obj_get_push(with_rel, key, "files"@, JsonV::Int(f as u64));
            },
            None => {},
        }
    }
    lemma_relation_label_round_trip(e.relation);
    assert(spec_edge_from_json(spec_edge_to_json(e)) matches Some(e2) && e2 =~~= e);
}

/// A sequence of edges round-trips through its documents.
pub proof fn lemma_edges_round_trip(es: Seq<DepEdgeV>)
    ensures
        spec_edges_from_json(spec_edges_to_json(es)) == Some(es),
    decreases es,
{
    if es.len() == 0 {
        assert(spec_edges_from_json(spec_edges_to_json(es)) =~~= Some(es));
    } else {
        lemma_edge_round_trip(es[0]);
        lemma_edges_round_trip(es.skip(1));
        let js = spec_edges_to_json(es);
        assert(js[0] == spec_edge_to_json(es[0]));
        assert(js.skip(1) =~= spec_edges_to_json(es.skip(1)));
        assert(seq![es[0]].add(es.skip(1)) =~= es);
    }
}

/// The document of one module record: path, the language when known, the
/// three line counters, and the four nested lists.
pub open spec fn spec_module_to_json(m: ModuleIRV) -> JsonV {
    let base = seq![("path"@, JsonV::Text(m.path))];
    let with_lang = match m.language {
        Some(lang) => base.push(("language"@, JsonV::Text(lang))),
        None => base,
    };
    JsonV::Object(
        with_lang.push(("loc"@, JsonV::Int(m.loc as u64))).push(
            ("comment_lines"@, JsonV::Int(m.comment_lines as u64)),
        ).push(("blank_lines"@, JsonV::Int(m.blank_lines as u64))).push(
            ("symbols"@, JsonV::List(spec_symbols_to_json(m.symbols))),
        ).push(("metrics"@, JsonV::List(spec_metrics_to_json(m.metrics)))).push(
            ("outgoing"@, JsonV::List(spec_edges_to_json(m.outgoing))),
        ).push(("incoming"@, JsonV::List(spec_edges_to_json(m.incoming)))),
    )
}

/// Read one module record back from its document.
pub open spec fn spec_module_from_json(j: JsonV) -> Option<ModuleIRV> {
    match j {
        JsonV::Object(fields) => {
            match (obj_get(fields, "path"@), obj_get(fields, "loc"@), obj_get(
                fields,
                "comment_lines"@,
            ), obj_get(fields, "blank_lines"@)) {
                (
                    Some(JsonV::Text(path_s)),
                    Some(JsonV::Int(loc_n)),
                    Some(JsonV::Int(comment_n)),
                    Some(JsonV::Int(blank_n)),
                ) => {
                    if loc_n <= u32::MAX && comment_n <= u32::MAX && blank_n <= u32::MAX {
                        match (obj_get(fields, "symbols"@), obj_get(fields, "metrics"@), obj_get(
                            fields,
                            "outgoing"@,
                        ), obj_get(fields, "incoming"@)) {
                            (
                                Some(JsonV::List(sym_docs)),
                                Some(JsonV::List(metric_docs)),
                                Some(JsonV::List(out_docs)),
                                Some(JsonV::List(in_docs)),
                            ) => {
                                match (spec_symbols_from_json(sym_docs), spec_metrics_from_json(
                                    metric_docs,
                                ), spec_edges_from_json(out_docs), spec_edges_from_json(in_docs)) {
                                    (Some(symbols), Some(ms), Some(outgoing), Some(incoming)) => {
                                        let language = match obj_get(fields, "language"@) {
                                            Some(JsonV::Text(lang)) => Some(lang),
                                            _ => None,
                                        };
                                        Some(
                                            ModuleIRV {
                                                path: path_s,
                                                language,
                                                loc: loc_n as u32,
                                                comment_lines: comment_n as u32,
                                                blank_lines: blank_n as u32,
                                                symbols,
                                                metrics: ms,
                                                outgoing,
                                                incoming,
                                            },
                                        )
                                    },
                                    _ => None,
                                }
                            },
                            _ => None,
                        }
                    } else {
                        None
                    }
                },
                _ => None,
            }
        },
        _ => None,
    }
}

/// A module record serialized to the interchange format and read back is the
/// same record, field for field; an object's field order never matters to
/// the reader.
pub proof fn lemma_module_json_round_trip(m: ModuleIRV)
    ensures
        spec_module_from_json(spec_module_to_json(m)) == Some(m),
{
    reveal_strlit("path");
    reveal_strlit("language");
    reveal_strlit("loc");
    reveal_strlit("comment_lines");
    reveal_strlit("blank_lines");
    reveal_strlit("symbols");
    reveal_strlit("metrics");
    reveal_strlit("outgoing");
    reveal_strlit("incoming");
    reveal_with_fuel(obj_get, 3);
    assert("path"@.len() == 4);
    assert("language"@.len() == 8);
    assert("loc"@.len() == 3);
    assert("comment_lines"@.len() == 13);
    assert("blank_lines"@.len() == 11);
    assert("symbols"@.len() == 7);
    assert("metrics"@.len() == 7);
    assert("outgoing"@.len() == 8);
    assert("incoming"@.len() == 8);
    assert("symbols"@[0] == 's' && "metrics"@[0] == 'm');
    assert("language"@[0] == 'l' && "outgoing"@[0] == 'o' && "incoming"@[0] == 'i');
    let base = seq![("path"@, JsonV::Text(m.path))];
    let with_lang = match m.language {
        Some(lang) => base.push(("language"@, JsonV::Text(lang))),
        None => base,
    };
    let f1 = with_lang.push(("loc"@, JsonV::Int(m.loc as u64)));
    let f2 = f1.push(("comment_lines"@, JsonV::Int(m.comment_lines as u64)));
    let f3 = f2.push(("blank_lines"@, JsonV::Int(m.blank_lines as u64)));
    let f4 = f3.push(("symbols"@, JsonV::List(spec_symbols_to_json(m.symbols))));
    let f5 = f4.push(("metrics"@, JsonV::List(spec_metrics_to_json(m.metrics))));
    let f6 = f5.push(("outgoing"@, JsonV::List(spec_edges_to_json(m.outgoing))));
    let fields = f6.push(("incoming"@, JsonV::List(spec_edges_to_json(m.incoming))));
    assert(spec_module_to_json(m) == JsonV::Object(fields));
    assert forall|key: Seq<char>| true implies #[trigger] obj_get(fields, key) == (
    if key == "path"@ {
        Some(JsonV::Text(m.path))
    } else if key == "language"@ && m.language is Some {
        Some(JsonV::Text(m.language->0))
    } else if key == "loc"@ {
        Some(JsonV::Int(m.loc as u64))
    } else if key == "comment_lines"@ {
        Some(JsonV::Int(m.comment_lines as u64))
    } else if key == "blank_lines"@ {
        Some(JsonV::Int(m.blank_lines as u64))
    } else if key == "symbols"@ {
        Some(JsonV::List(spec_symbols_to_json(m.symbols)))
    } else if key == "metrics"@ {
        Some(JsonV::List(spec_metrics_to_json(m.metrics)))
    } else if key == "outgoing"@ {
        Some(JsonV::List(spec_edges_to_json(m.outgoing)))
    } else if key == "incoming"@ {
        Some(JsonV::List(spec_edges_to_json(m.incoming)))
    } else {
        None
    }) by {
        match m.language {
            Some(lang) => {
                lemma_obj_get_push(base, key, "language"@, JsonV::Text(lang));
            },
            None => {},
        }
        lemma_obj_get_push(with_lang, key, "loc"@, JsonV::Int(m.loc as u64));
        lemma_obj_get_push(f1, key, "comment_lines"@, JsonV::Int(m.comment_lines as u64));
        lemma_obj_get_push(f2, key, "blank_lines"@, JsonV::Int(m.blank_lines as u64));
        lemma_obj_get_push(f3, key, "symbols"@, JsonV::List(spec_symbols_to_json(m.symbols)));
        lemma_obj_get_push(f4, key, "metrics"@, JsonV::List(spec_metrics_to_json(m.metrics)));
        lemma_obj_get_push(f5, key, "outgoing"@, JsonV::List(spec_edges_to_json(m.outgoing)));
        lemma_obj_get_push(
            f6,
            key,
            "incoming"@,
            JsonV::List(spec_edges_to_json(m.incoming)),
        );
    }
    lemma_symbols_round_trip(m.symbols);
    lemma_metrics_round_trip(m.metrics);
    lemma_edges_round_trip(m.outgoing);
    lemma_edges_round_trip(m.incoming);
    assert(spec_module_from_json(spec_module_to_json(m)) matches Some(m2) && m2 =~~= m);
}

/// A document in the interchange format, as a value: integer numbers, text,
/// arrays and objects.
pub enum JsonValue {
    Int(u64),
    Text(String),
    List(Vec<JsonValue>),
    Object(Vec<(String, JsonValue)>),
}

/// The mathematical value of a document.
pub open spec fn spec_json_view(v: JsonValue) -> JsonV
    decreases v,
{
    match v {
        JsonValue::Int(n) => JsonV::Int(n),
        JsonValue::Text(s) => JsonV::Text(s@),
        JsonValue::List(xs) => JsonV::List(spec_json_views(xs@)),
        JsonValue::Object(fs) => JsonV::Object(spec_json_fields(fs@)),
    }
}

pub open spec fn spec_json_views(s: Seq<JsonValue>) -> Seq<JsonV>
    decreases s,
{
    if s.len() == 0 {
        Seq::empty()
    } else {
        seq![spec_json_view(s[0])].add(spec_json_views(s.skip(1)))
    }
}

pub open spec fn spec_json_fields(s: Seq<(String, JsonValue)>) -> Seq<(Seq<char>, JsonV)>
    decreases s,
{
    if s.len() == 0 {
        Seq::empty()
    } else {
        seq![(s[0].0@, spec_json_view(s[0].1))].add(spec_json_fields(s.skip(1)))
    }
}

/// Pointwise characterization of a value sequence's view.
proof fn lemma_json_views_index(s: Seq<JsonValue>)
    ensures
        spec_json_views(s).len() == s.len(),
        forall|i: int|
            0 <= i < s.len() ==> #[trigger] spec_json_views(s)[i] == spec_json_view(s[i]),
    decreases s,
{
    if s.len() > 0 {
        lemma_json_views_index(s.skip(1));
        assert forall|i: int|
            0 <= i < s.len() implies #[trigger] spec_json_views(s)[i] == spec_json_view(
            s[i],
        ) by {
            if i > 0 {
                assert(spec_json_views(s.skip(1))[i - 1] == spec_json_view(s.skip(1)[i - 1]));
            }
        }
    }
}

/// Pointwise characterization of a field sequence's view.
proof fn lemma_json_fields_index(s: Seq<(String, JsonValue)>)
    ensures
        spec_json_fields(s).len() == s.len(),
        forall|i: int|
            0 <= i < s.len() ==> #[trigger] spec_json_fields(s)[i] == (
                s[i].0@,
                spec_json_view(s[i].1),
            ),
    decreases s,
{
    if s.len() > 0 {
        lemma_json_fields_index(s.skip(1));
        assert forall|i: int|
            0 <= i < s.len() implies #[trigger] spec_json_fields(s)[i] == (
            s[i].0@,
            spec_json_view(s[i].1),
        ) by {
            if i > 0 {
                assert(spec_json_fields(s.skip(1))[i - 1] == (
                    s.skip(1)[i - 1].0@,
                    spec_json_view(s.skip(1)[i - 1].1),
                ));
            }
        }
    }
}

/// Find the first value under a key in an object's fields.
fn json_obj_get<'a>(fields: &'a Vec<(String, JsonValue)>, key: &str) -> (r: Option<
    &'a JsonValue,
>)
    ensures
        r matches Some(v) ==> obj_get(spec_json_fields(fields@), key@) == Some(
            spec_json_view(*v),
        ),
        r is None ==> obj_get(spec_json_fields(fields@), key@) is None,
{
    proof {
        lemma_json_fields_index(fields@);
    }
    let ghost whole = spec_json_fields(fields@);
    proof {
        assert(whole.skip(0) =~= whole);
    }
    let mut i: usize = 0;
    while i < fields.len()
        invariant
            0 <= i <= fields@.len(),
            whole == spec_json_fields(fields@),
            whole.len() == fields@.len(),
            forall|k: int|
                0 <= k < fields@.len() ==> #[trigger] whole[k] == (
                    fields@[k].0@,
                    spec_json_view(fields@[k].1),
                ),
            obj_get(whole, key@) == obj_get(whole.skip(i as int), key@),
        decreases fields@.len() - i,
    {
        if str_eq(fields[i].0.as_str(), key) {
            proof {
                assert(whole.skip(i as int)[0] == whole[i as int]);
            }
            return Some(&fields[i].1);
        }
        proof {
            assert(whole.skip(i as int)[0] == whole[i as int]);
            assert(whole.skip(i as int).skip(1) =~= whole.skip(i as int + 1));
        }
        i = i + 1;
    }
    proof {
        assert(whole.skip(fields@.len() as int) =~= Seq::<(Seq<char>, JsonV)>::empty());
    }
    None
}

/// The label of a severity.
fn severity_label(s: Severity) -> (r: &'static str)
    ensures
        r@ == spec_severity_label(s),
{
    proof {
        reveal_strlit("info");
        reveal_strlit("warning");
        reveal_strlit("error");
    }
    match s {
        Severity::Info => "info",
        Severity::Warning => "warning",
        Severity::Error => "error",
    }
}

/// The severity a label denotes.
fn severity_from_label(s: &str) -> (r: Option<Severity>)
    ensures
        r == spec_severity_from_label(s@),
{
    if str_eq(s, "info") {
        Some(Severity::Info)
    } else if str_eq(s, "warning") {
        Some(Severity::Warning)
    } else if str_eq(s, "error") {
        Some(Severity::Error)
    } else {
        None
    }
}

/// The label of a dependency relation.
fn relation_label(k: DepKind) -> (r: &'static str)
    ensures
        r@ == spec_relation_label(k),
{
    proof {
        reveal_strlit("import");
        reveal_strlit("use");
        reveal_strlit("inherit");
        reveal_strlit("aggregate");
        reveal_strlit("compose");
    }
    match k {
        DepKind::Import => "import",
        DepKind::Use => "use",
        DepKind::Inherit => "inherit",
        DepKind::Aggregate => "aggregate",
        DepKind::Compose => "compose",
    }
}

/// The dependency relation a label denotes.
fn relation_from_label(s: &str) -> (r: Option<DepKind>)
    ensures
        r == spec_relation_from_label(s@),
{
    if str_eq(s, "import") {
        Some(DepKind::Import)
    } else if str_eq(s, "use") {
        Some(DepKind::Use)
    } else if str_eq(s, "inherit") {
        Some(DepKind::Inherit)
    } else if str_eq(s, "aggregate") {
        Some(DepKind::Aggregate)
    } else if str_eq(s, "compose") {
        Some(DepKind::Compose)
    } else {
        None
    }
}

/// The symbol kind a label denotes.
fn kind_from_label(s: &str) -> (r: Option<SymbolKind>)
    ensures
        r == spec_kind_from_label(s@),
{
    if str_eq(s, "class") {
        Some(SymbolKind::Class)
    } else if str_eq(s, "function") {
        Some(SymbolKind::Function)
    } else if str_eq(s, "const") {
        Some(SymbolKind::Const)
    } else if str_eq(s, "variable") {
        Some(SymbolKind::Variable)
    } else if str_eq(s, "interface") {
        Some(SymbolKind::Interface)
    } else if str_eq(s, "type") {
        Some(SymbolKind::Type)
    } else if str_eq(s, "enum") {
        Some(SymbolKind::Enum)
    } else {
        None
    }
}

/// Serialize one finding.
pub fn metric_to_json(m: &crate::types::QualityMetric) -> (r: JsonValue)
    ensures
        spec_json_view(r) == spec_metric_to_json(m@),
{
    let mut fields: Vec<(String, JsonValue)> = Vec::new();
    fields.push(("name".to_owned(), JsonValue::Text(m.name.clone())));
    fields.push(("value".to_owned(), JsonValue::Int(m.value)));
    match m.threshold {
        Some(t) => {
            fields.push(("threshold".to_owned(), JsonValue::Int(t)));
        },
        None => {},
    }
    fields.push(("severity".to_owned(), JsonValue::Text(severity_label(m.severity).to_owned())));
    match &m.message {
        Some(msg) => {
            fields.push(("message".to_owned(), JsonValue::Text(msg.clone())));
        },
        None => {},
    }
    let r = JsonValue::Object(fields);
    proof {
        lemma_json_fields_index(r->Object_0@);
        if m.threshold is Some && m.message is Some {
            let sf = spec_json_fields(r->Object_0@);
            assert(r->Object_0@.len() == 5);
            assert(sf.len() == 5);
            assert(sf[0] =~~= ("name"@, JsonV::Text(m@.name)));
            assert(sf[1] =~~= ("value"@, JsonV::Int(m@.value)));
            assert(sf[2] =~~= ("threshold"@, JsonV::Int(m@.threshold->0)));
            assert(sf[3] =~~= ("severity"@, JsonV::Text(spec_severity_label(m@.severity))));
            assert(sf[4] =~~= ("message"@, JsonV::Text(m@.message->0)));
            let sp = spec_metric_to_json(m@)->Object_0;
            assert(sp.len() == 5);
            assert(sp[0] == ("name"@, JsonV::Text(m@.name)));
            assert(sp[1] == ("value"@, JsonV::Int(m@.value)));
            assert(sp[2] == ("threshold"@, JsonV::Int(m@.threshold->0)));
            assert(sp[3] == ("severity"@, JsonV::Text(spec_severity_label(m@.severity))));
            assert(sp[4] == ("message"@, JsonV::Text(m@.message->0)));
            assert(sf =~~= sp);
            assert(spec_json_view(r) =~~= spec_metric_to_json(m@));
        } else if m.threshold is Some {
            let sf = spec_json_fields(r->Object_0@);
            let sp = spec_metric_to_json(m@)->Object_0;
            assert(r->Object_0@.len() == 4);
            assert(sf.len() == 4);
            assert(sp.len() == 4);
            assert(sf[0] =~~= ("name"@, JsonV::Text(m@.name)));
            assert(sp[0] == ("name"@, JsonV::Text(m@.name)));
            assert(sf[1] =~~= ("value"@, JsonV::Int(m@.value)));
            assert(sp[1] == ("value"@, JsonV::Int(m@.value)));
            assert(sf[2] =~~= ("threshold"@, JsonV::Int(m@.threshold->0)));
            assert(sp[2] == ("threshold"@, JsonV::Int(m@.threshold->0)));
            assert(sf[3] =~~= ("severity"@, JsonV::Text(spec_severity_label(m@.severity))));
            assert(sp[3] == ("severity"@, JsonV::Text(spec_severity_label(m@.severity))));
            assert(sf =~~= sp);
            assert(spec_json_view(r) =~~= spec_metric_to_json(m@));
        } else if m.message is Some {
            let sf = spec_json_fields(r->Object_0@);
            let sp = spec_metric_to_json(m@)->Object_0;
            assert(r->Object_0@.len() == 4);
            assert(sf.len() == 4);
            assert(sp.len() == 4);
            assert(sf[0] =~~= ("name"@, JsonV::Text(m@.name)));
            assert(sp[0] == ("name"@, JsonV::Text(m@.name)));
            assert(sf[1] =~~= ("value"@, JsonV::Int(m@.value)));
            assert(sp[1] == ("value"@, JsonV::Int(m@.value)));
            assert(sf[2] =~~= ("severity"@, JsonV::Text(spec_severity_label(m@.severity))));
            assert(sp[2] == ("severity"@, JsonV::Text(spec_severity_label(m@.severity))));
            assert(sf[3] =~~= ("message"@, JsonV::Text(m@.message->0)));
            assert(sp[3] == ("message"@, JsonV::Text(m@.message->0)));
            assert(sf =~~= sp);
            assert(spec_json_view(r) =~~= spec_metric_to_json(m@));
        } else {
            let sf = spec_json_fields(r->Object_0@);
            let sp = spec_metric_to_json(m@)->Object_0;
            assert(r->Object_0@.len() == 3);
            assert(sf.len() == 3);
            assert(sp.len() == 3);
            assert(sf[0] =~~= ("name"@, JsonV::Text(m@.name)));
            assert(sp[0] == ("name"@, JsonV::Text(m@.name)));
            assert(sf[1] =~~= ("value"@, JsonV::Int(m@.value)));
            assert(sp[1] == ("value"@, JsonV::Int(m@.value)));
            assert(sf[2] =~~= ("severity"@, JsonV::Text(spec_severity_label(m@.severity))));
            assert(sp[2] == ("severity"@, JsonV::Text(spec_severity_label(m@.severity))));
            assert(sf =~~= sp);
            assert(spec_json_view(r) =~~= spec_metric_to_json(m@));
        }
    }
    r
}

/// Read one finding back.
pub fn metric_from_json(j: &JsonValue) -> (r: Option<crate::types::QualityMetric>)
    ensures
        r matches Some(m) ==> spec_metric_from_json(spec_json_view(*j)) == Some(m@),
        r is None ==> spec_metric_from_json(spec_json_view(*j)) is None,
{
    let fields = match j {
        JsonValue::Object(fs) => fs,
        _ => {
            return None;
        },
    };
    let name: String = match json_obj_get(fields, "name") {
        Some(JsonValue::Text(s)) => s.clone(),
        _ => {
            return None;
        },
    };
    let value: u64 = match json_obj_get(fields, "value") {
        Some(JsonValue::Int(n)) => *n,
        _ => {
            return None;
        },
    };
    let sev: Severity = match json_obj_get(fields, "severity") {
        Some(JsonValue::Text(s)) => {
            match severity_from_label(s.as_str()) {
                Some(sv) => sv,
                None => {
                    return None;
                },
            }
        },
        _ => {
            return None;
        },
    };
    let threshold: Option<u64> = match json_obj_get(fields, "threshold") {
        Some(JsonValue::Int(t)) => Some(*t),
        _ => None,
    };
    let message: Option<String> = match json_obj_get(fields, "message") {
        Some(JsonValue::Text(s)) => Some(s.clone()),
        _ => None,
    };
    let out = crate::types::QualityMetric { name, value, threshold, severity: sev, message };
    proof {
        assert(spec_metric_from_json(spec_json_view(*j)) matches Some(m2) && m2 =~~= out@);
    }
    Some(out)
}


/// Pointwise characterization of a metric sequence's documents.
proof fn lemma_metrics_to_json_index(ms: Seq<QualityMetricV>)
    ensures
        spec_metrics_to_json(ms).len() == ms.len(),
        forall|i: int|
            0 <= i < ms.len() ==> #[trigger] spec_metrics_to_json(ms)[i] == spec_metric_to_json(
                ms[i],
            ),
    decreases ms,
{
    if ms.len() > 0 {
        lemma_metrics_to_json_index(ms.skip(1));
        assert forall|i: int|
            0 <= i < ms.len() implies #[trigger] spec_metrics_to_json(ms)[i]
            == spec_metric_to_json(ms[i]) by {
            if i > 0 {
                assert(spec_metrics_to_json(ms.skip(1))[i - 1] == spec_metric_to_json(
                    ms.skip(1)[i - 1],
                ));
            }
        }
    }
}

/// When every document reads back, the list reads back elementwise.
proof fn lemma_metrics_from_json_all(js: Seq<JsonV>, ms: Seq<QualityMetricV>)
    requires
        js.len() == ms.len(),
        forall|i: int| 0 <= i < js.len() ==> spec_metric_from_json(#[trigger] js[i]) == Some(
            ms[i],
        ),
    ensures
        spec_metrics_from_json(js) == Some(ms),
    decreases js,
{
    if js.len() == 0 {
        assert(spec_metrics_from_json(js) =~~= Some(ms));
    } else {
        assert forall|i: int|
            0 <= i < js.skip(1).len() implies spec_metric_from_json(
            #[trigger] js.skip(1)[i]) == Some(ms.skip(1)[i]) by {
            assert(js.skip(1)[i] == js[i + 1]);
        }
        lemma_metrics_from_json_all(js.skip(1), ms.skip(1));
        assert(seq![ms[0]].add(ms.skip(1)) =~= ms);
    }
}

/// One document that does not read back spoils the list, provided every
/// earlier one does.
proof fn lemma_metrics_from_json_fail(js: Seq<JsonV>, k: int)
    requires
        0 <= k < js.len(),
        spec_metric_from_json(js[k]) is None,
        forall|i: int| 0 <= i < k ==> spec_metric_from_json(#[trigger] js[i]) is Some,
    ensures
        spec_metrics_from_json(js) is None,
    decreases js,
{
    if k == 0 {
    } else {
        assert(spec_metric_from_json(js[0]) is Some);
        assert(js.skip(1)[k - 1] == js[k]);
        assert forall|i: int|
            0 <= i < k - 1 implies spec_metric_from_json(#[trigger] js.skip(1)[i]) is Some by {
            assert(js.skip(1)[i] == js[i + 1]);
        }
        lemma_metrics_from_json_fail(js.skip(1), k - 1);
    }
}

/// Serialize a list of metrics.
pub fn metrics_to_json(ms: &Vec<crate::types::QualityMetric>) -> (r: Vec<JsonValue>)
    ensures
        spec_json_views(r@) == spec_metrics_to_json(ms@.map_values(|x: crate::types::QualityMetric| x@)),
{
    let mut out: Vec<JsonValue> = Vec::new();
    let mut i: usize = 0;
    while i < ms.len()
        invariant
            0 <= i <= ms@.len(),
            out@.len() == i,
            forall|k: int|
                0 <= k < i ==> spec_json_view(#[trigger] out@[k]) == spec_metric_to_json(
                    ms@[k]@,
                ),
        decreases ms@.len() - i,
    {
        out.push(metric_to_json(&ms[i]));
        i = i + 1;
    }
    proof {
        let views = ms@.map_values(|x: crate::types::QualityMetric| x@);
        lemma_json_views_index(out@);
        lemma_metrics_to_json_index(views);
        assert(spec_json_views(out@) =~~= spec_metrics_to_json(views));
    }
    out
}

/// Read a list of metrics back; one bad document spoils the list.
pub fn metrics_from_json(js: &Vec<JsonValue>) -> (r: Option<Vec<crate::types::QualityMetric>>)
    ensures
        r matches Some(ms) ==> spec_metrics_from_json(spec_json_views(js@)) == Some(
            ms@.map_values(|x: crate::types::QualityMetric| x@),
        ),
        r is None ==> spec_metrics_from_json(spec_json_views(js@)) is None,
{
    proof {
        lemma_json_views_index(js@);
    }
    let mut out: Vec<crate::types::QualityMetric> = Vec::new();
    let mut i: usize = 0;
    while i < js.len()
        invariant
            0 <= i <= js@.len(),
            out@.len() == i,
            spec_json_views(js@).len() == js@.len(),
            forall|k: int|
                0 <= k < js@.len() ==> #[trigger] spec_json_views(js@)[k] == spec_json_view(
                    js@[k],
                ),
            forall|k: int|
                0 <= k < i ==> spec_metric_from_json(#[trigger] spec_json_views(js@)[k]) == Some(
                    out@[k]@,
                ),
        decreases js@.len() - i,
    {
        match metric_from_json(&js[i]) {
            Some(m) => {
                out.push(m);
            },
            None => {
                proof {
                    lemma_metrics_from_json_fail(spec_json_views(js@), i as int);
                }
                return None;
            },
        }
        i = i + 1;
    }
    proof {
        lemma_metrics_from_json_all(
            spec_json_views(js@),
            out@.map_values(|x: crate::types::QualityMetric| x@),
        );
    }
    Some(out)
}

/// Pointwise characterization of a symbol sequence's documents.
proof fn lemma_symbols_to_json_index(ms: Seq<SymbolV>)
    ensures
        spec_symbols_to_json(ms).len() == ms.len(),
        forall|i: int|
            0 <= i < ms.len() ==> #[trigger] spec_symbols_to_json(ms)[i] == spec_symbol_to_json(
                ms[i],
            ),
    decreases ms,
{
    if ms.len() > 0 {
        lemma_symbols_to_json_index(ms.skip(1));
        assert forall|i: int|
            0 <= i < ms.len() implies #[trigger] spec_symbols_to_json(ms)[i]
            == spec_symbol_to_json(ms[i]) by {
            if i > 0 {
                assert(spec_symbols_to_json(ms.skip(1))[i - 1] == spec_symbol_to_json(
                    ms.skip(1)[i - 1],
                ));
            }
        }
    }
}

/// When every document reads back, the list reads back elementwise.
proof fn lemma_symbols_from_json_all(js: Seq<JsonV>, ms: Seq<SymbolV>)
    requires
        js.len() == ms.len(),
        forall|i: int| 0 <= i < js.len() ==> spec_symbol_from_json(#[trigger] js[i]) == Some(
            ms[i],
        ),
    ensures
        spec_symbols_from_json(js) == Some(ms),
    decreases js,
{
    if js.len() == 0 {
        assert(spec_symbols_from_json(js) =~~= Some(ms));
    } else {
        assert forall|i: int|
            0 <= i < js.skip(1).len() implies spec_symbol_from_json(
            #[trigger] js.skip(1)[i]) == Some(ms.skip(1)[i]) by {
            assert(js.skip(1)[i] == js[i + 1]);
        }
        lemma_symbols_from_json_all(js.skip(1), ms.skip(1));
        assert(seq![ms[0]].add(ms.skip(1)) =~= ms);
    }
}

/// One document that does not read back spoils the list, provided every
/// earlier one does.
proof fn lemma_symbols_from_json_fail(js: Seq<JsonV>, k: int)
    requires
        0 <= k < js.len(),
        spec_symbol_from_json(js[k]) is None,
        forall|i: int| 0 <= i < k ==> spec_symbol_from_json(#[trigger] js[i]) is Some,
    ensures
        spec_symbols_from_json(js) is None,
    decreases js,
{
    if k == 0 {
    } else {
        assert(spec_symbol_from_json(js[0]) is Some);
        assert(js.skip(1)[k - 1] == js[k]);
        assert forall|i: int|
            0 <= i < k - 1 implies spec_symbol_from_json(#[trigger] js.skip(1)[i]) is Some by {
            assert(js.skip(1)[i] == js[i + 1]);
        }
        lemma_symbols_from_json_fail(js.skip(1), k - 1);
    }
}

/// Serialize a list of symbols.
pub fn symbols_to_json(ms: &Vec<crate::types::Symbol>) -> (r: Vec<JsonValue>)
    ensures
        spec_json_views(r@) == spec_symbols_to_json(ms@.map_values(|x: crate::types::Symbol| x@)),
{
    let mut out: Vec<JsonValue> = Vec::new();
    let mut i: usize = 0;
    while i < ms.len()
        invariant
            0 <= i <= ms@.len(),
            out@.len() == i,
            forall|k: int|
                0 <= k < i ==> spec_json_view(#[trigger] out@[k]) == spec_symbol_to_json(
                    ms@[k]@,
                ),
        decreases ms@.len() - i,
    {
        out.push(symbol_to_json(&ms[i]));
        i = i + 1;
    }
    proof {
        let views = ms@.map_values(|x: crate::types::Symbol| x@);
        lemma_json_views_index(out@);
        lemma_symbols_to_json_index(views);
        assert(spec_json_views(out@) =~~= spec_symbols_to_json(views));
    }
    out
}

/// Read a list of symbols back; one bad document spoils the list.
pub fn symbols_from_json(js: &Vec<JsonValue>) -> (r: Option<Vec<crate::types::Symbol>>)
    ensures
        r matches Some(ms) ==> spec_symbols_from_json(spec_json_views(js@)) == Some(
            ms@.map_values(|x: crate::types::Symbol| x@),
        ),
        r is None ==> spec_symbols_from_json(spec_json_views(js@)) is None,
{
    proof {
        lemma_json_views_index(js@);
    }
    let mut out: Vec<crate::types::Symbol> = Vec::new();
    let mut i: usize = 0;
    while i < js.len()
        invariant
            0 <= i <= js@.len(),
            out@.len() == i,
            spec_json_views(js@).len() == js@.len(),
            forall|k: int|
                0 <= k < js@.len() ==> #[trigger] spec_json_views(js@)[k] == spec_json_view(
                    js@[k],
                ),
            forall|k: int|
                0 <= k < i ==> spec_symbol_from_json(#[trigger] spec_json_views(js@)[k]) == Some(
                    out@[k]@,
                ),
        decreases js@.len() - i,
    {
        match symbol_from_json(&js[i]) {
            Some(m) => {
                out.push(m);
            },
            None => {
                proof {
                    lemma_symbols_from_json_fail(spec_json_views(js@), i as int);
                }
                return None;
            },
        }
        i = i + 1;
    }
    proof {
        lemma_symbols_from_json_all(
            spec_json_views(js@),
            out@.map_values(|x: crate::types::Symbol| x@),
        );
    }
    Some(out)
}

/// Pointwise characterization of a edge sequence's documents.
proof fn lemma_edges_to_json_index(ms: Seq<DepEdgeV>)
    ensures
        spec_edges_to_json(ms).len() == ms.len(),
        forall|i: int|
            0 <= i < ms.len() ==> #[trigger] spec_edges_to_json(ms)[i] == spec_edge_to_json(
                ms[i],
            ),
    decreases ms,
{
    if ms.len() > 0 {
        lemma_edges_to_json_index(ms.skip(1));
        assert forall|i: int|
            0 <= i < ms.len() implies #[trigger] spec_edges_to_json(ms)[i]
            == spec_edge_to_json(ms[i]) by {
            if i > 0 {
                assert(spec_edges_to_json(ms.skip(1))[i - 1] == spec_edge_to_json(
                    ms.skip(1)[i - 1],
                ));
            }
        }
    }
}

/// When every document reads back, the list reads back elementwise.
proof fn lemma_edges_from_json_all(js: Seq<JsonV>, ms: Seq<DepEdgeV>)
    requires
        js.len() == ms.len(),
        forall|i: int| 0 <= i < js.len() ==> spec_edge_from_json(#[trigger] js[i]) == Some(
            ms[i],
        ),
    ensures
        spec_edges_from_json(js) == Some(ms),
    decreases js,
{
    if js.len() == 0 {
        assert(spec_edges_from_json(js) =~~= Some(ms));
    } else {
        assert forall|i: int|
            0 <= i < js.skip(1).len() implies spec_edge_from_json(
            #[trigger] js.skip(1)[i]) == Some(ms.skip(1)[i]) by {
            assert(js.skip(1)[i] == js[i + 1]);
        }
        lemma_edges_from_json_all(js.skip(1), ms.skip(1));
        assert(seq![ms[0]].add(ms.skip(1)) =~= ms);
    }
}

/// One document that does not read back spoils the list, provided every
/// earlier one does.
proof fn lemma_edges_from_json_fail(js: Seq<JsonV>, k: int)
    requires
        0 <= k < js.len(),
        spec_edge_from_json(js[k]) is None,
        forall|i: int| 0 <= i < k ==> spec_edge_from_json(#[trigger] js[i]) is Some,
    ensures
        spec_edges_from_json(js) is None,
    decreases js,
{
    if k == 0 {
    } else {
        assert(spec_edge_from_json(js[0]) is Some);
        assert(js.skip(1)[k - 1] == js[k]);
        assert forall|i: int|
            0 <= i < k - 1 implies spec_edge_from_json(#[trigger] js.skip(1)[i]) is Some by {
            assert(js.skip(1)[i] == js[i + 1]);
        }
        lemma_edges_from_json_fail(js.skip(1), k - 1);
    }
}

/// Serialize a list of edges.
pub fn edges_to_json(ms: &Vec<crate::types::DepEdge>) -> (r: Vec<JsonValue>)
    ensures
        spec_json_views(r@) == spec_edges_to_json(ms@.map_values(|x: crate::types::DepEdge| x@)),
{
    let mut out: Vec<JsonValue> = Vec::new();
    let mut i: usize = 0;
    while i < ms.len()
        invariant
            0 <= i <= ms@.len(),
            out@.len() == i,
            forall|k: int|
                0 <= k < i ==> spec_json_view(#[trigger] out@[k]) == spec_edge_to_json(
                    ms@[k]@,
                ),
        decreases ms@.len() - i,
    {
        out.push(edge_to_json(&ms[i]));
        i = i + 1;
    }
    proof {
        let views = ms@.map_values(|x: crate::types::DepEdge| x@);
        lemma_json_views_index(out@);
        lemma_edges_to_json_index(views);
        assert(spec_json_views(out@) =~~= spec_edges_to_json(views));
    }
    out
}

/// Read a list of edges back; one bad document spoils the list.
pub fn edges_from_json(js: &Vec<JsonValue>) -> (r: Option<Vec<crate::types::DepEdge>>)
    ensures
        r matches Some(ms) ==> spec_edges_from_json(spec_json_views(js@)) == Some(
            ms@.map_values(|x: crate::types::DepEdge| x@),
        ),
        r is None ==> spec_edges_from_json(spec_json_views(js@)) is None,
{
    proof {
        lemma_json_views_index(js@);
    }
    let mut out: Vec<crate::types::DepEdge> = Vec::new();
    let mut i: usize = 0;
    while i < js.len()
        invariant
            0 <= i <= js@.len(),
            out@.len() == i,
            spec_json_views(js@).len() == js@.len(),
            forall|k: int|
                0 <= k < js@.len() ==> #[trigger] spec_json_views(js@)[k] == spec_json_view(
                    js@[k],
                ),
            forall|k: int|
                0 <= k < i ==> spec_edge_from_json(#[trigger] spec_json_views(js@)[k]) == Some(
                    out@[k]@,
                ),
        decreases js@.len() - i,
    {
        match edge_from_json(&js[i]) {
            Some(m) => {
                out.push(m);
            },
            None => {
                proof {
                    lemma_edges_from_json_fail(spec_json_views(js@), i as int);
                }
                return None;
            },
        }
        i = i + 1;
    }
    proof {
        lemma_edges_from_json_all(
            spec_json_views(js@),
            out@.map_values(|x: crate::types::DepEdge| x@),
        );
    }
    Some(out)
}


/// Serialize one symbol.
pub fn symbol_to_json(sym: &crate::types::Symbol) -> (r: JsonValue)
    ensures
        spec_json_view(r) == spec_symbol_to_json(sym@),
{
    let mut fields: Vec<(String, JsonValue)> = Vec::new();
    fields.push(("kind".to_owned(), JsonValue::Text(sym.kind.label().to_owned())));
    fields.push(("name".to_owned(), JsonValue::Text(sym.name.clone())));
    fields.push(("loc".to_owned(), JsonValue::Int(sym.loc as u64)));
    match sym.cyclomatic_complexity {
        Some(c) => {
            fields.push(("cyclomatic_complexity".to_owned(), JsonValue::Int(c as u64)));
        },
        None => {},
    }
    fields.push(("metrics".to_owned(), JsonValue::List(metrics_to_json(&sym.metrics))));
    let r = JsonValue::Object(fields);
    proof {
        lemma_json_fields_index(r->Object_0@);
        assert(sym.metrics@.map_values(|x: crate::types::QualityMetric| x@) =~= sym@.metrics);
        if sym.cyclomatic_complexity is Some {
            let sf = spec_json_fields(r->Object_0@);
            let sp = spec_symbol_to_json(sym@)->Object_0;
            assert(r->Object_0@.len() == 5);
            assert(sf.len() == 5);
            assert(sp.len() == 5);
            assert(sf[0] =~~= ("kind"@, JsonV::Text(spec_kind_label(sym@.kind))));
            assert(sp[0] == ("kind"@, JsonV::Text(spec_kind_label(sym@.kind))));
            assert(sf[1] =~~= ("name"@, JsonV::Text(sym@.name)));
            assert(sp[1] == ("name"@, JsonV::Text(sym@.name)));
            assert(sf[2] =~~= ("loc"@, JsonV::Int(sym@.loc as u64)));
            assert(sp[2] == ("loc"@, JsonV::Int(sym@.loc as u64)));
            assert(sf[3] =~~= ("cyclomatic_complexity"@, JsonV::Int(sym@.cyclomatic_complexity->0 as u64)));
            assert(sp[3] == ("cyclomatic_complexity"@, JsonV::Int(sym@.cyclomatic_complexity->0 as u64)));
            assert(sf[4] =~~= ("metrics"@, JsonV::List(spec_metrics_to_json(sym@.metrics))));
            assert(sp[4] == ("metrics"@, JsonV::List(spec_metrics_to_json(sym@.metrics))));
            assert(sf =~~= sp);
            assert(spec_json_view(r) =~~= spec_symbol_to_json(sym@));
        } else {
            let sf = spec_json_fields(r->Object_0@);
            let sp = spec_symbol_to_json(sym@)->Object_0;
            assert(r->Object_0@.len() == 4);
            assert(sf.len() == 4);
            assert(sp.len() == 4);
            assert(sf[0] =~~= ("kind"@, JsonV::Text(spec_kind_label(sym@.kind))));
            assert(sp[0] == ("kind"@, JsonV::Text(spec_kind_label(sym@.kind))));
            assert(sf[1] =~~= ("name"@, JsonV::Text(sym@.name)));
            assert(sp[1] == ("name"@, JsonV::Text(sym@.name)));
            assert(sf[2] =~~= ("loc"@, JsonV::Int(sym@.loc as u64)));
            assert(sp[2] == ("loc"@, JsonV::Int(sym@.loc as u64)));
            assert(sf[3] =~~= ("metrics"@, JsonV::List(spec_metrics_to_json(sym@.metrics))));
            assert(sp[3] == ("metrics"@, JsonV::List(spec_metrics_to_json(sym@.metrics))));
            assert(sf =~~= sp);
            assert(spec_json_view(r) =~~= spec_symbol_to_json(sym@));
        }
    }
    r
}

/// Read one symbol back.
pub fn symbol_from_json(j: &JsonValue) -> (r: Option<crate::types::Symbol>)
    ensures
        r matches Some(m) ==> spec_symbol_from_json(spec_json_view(*j)) == Some(m@),
        r is None ==> spec_symbol_from_json(spec_json_view(*j)) is None,
{
    let fields = match j {
        JsonValue::Object(fs) => fs,
        _ => {
            return None;
        },
    };
    let kind: SymbolKind = match json_obj_get(fields, "kind") {
        Some(JsonValue::Text(s)) => {
            match kind_from_label(s.as_str()) {
                Some(k) => k,
                None => {
                    return None;
                },
            }
        },
        _ => {
            return None;
        },
    };
    let name: String = match json_obj_get(fields, "name") {
        Some(JsonValue::Text(s)) => s.clone(),
        _ => {
            return None;
        },
    };
    let loc64: u64 = match json_obj_get(fields, "loc") {
        Some(JsonValue::Int(n)) => *n,
        _ => {
            return None;
        },
    };
    let ms: Vec<crate::types::QualityMetric> = match json_obj_get(fields, "metrics") {
        Some(JsonValue::List(docs)) => {
            match metrics_from_json(docs) {
                Some(v) => v,
                None => {
                    return None;
                },
            }
        },
        _ => {
            return None;
        },
    };
    if loc64 > u32::MAX as u64 {
        return None;
    }
    let cc: Option<u32> = match json_obj_get(fields, "cyclomatic_complexity") {
        Some(JsonValue::Int(c)) => {
            if *c <= u32::MAX as u64 {
                Some(*c as u32)
            } else {
                None
            }
        },
        _ => None,
    };
    let out = crate::types::Symbol {
        kind,
        name,
        loc: loc64 as u32,
        cyclomatic_complexity: cc,
        metrics: ms,
    };
    proof {
        assert(out@.metrics =~~= out.metrics@.map_values(
            |x: crate::types::QualityMetric| x@,
        ));
        assert(spec_symbol_from_json(spec_json_view(*j)) matches Some(m2) && m2 =~~= out@);
    }
    Some(out)
}

/// Serialize one dependency edge.
pub fn edge_to_json(e: &crate::types::DepEdge) -> (r: JsonValue)
    ensures
        spec_json_view(r) == spec_edge_to_json(e@),
{
    let mut fields: Vec<(String, JsonValue)> = Vec::new();
    match &e.source {
        Some(src) => {
            fields.push(("source".to_owned(), JsonValue::Text(src.clone())));
        },
        None => {},
    }
    match &e.target {
        Some(tgt) => {
            fields.push(("target".to_owned(), JsonValue::Text(tgt.clone())));
        },
        None => {},
    }
    fields.push(("relation".to_owned(), JsonValue::Text(relation_label(e.relation).to_owned())));
    fields.push(("strength_milli".to_owned(), JsonValue::Int(e.strength_milli as u64)));
    match e.files {
        Some(f) => {
            fields.push(("files".to_owned(), JsonValue::Int(f as u64)));
        },
        None => {},
    }
    let r = JsonValue::Object(fields);
    proof {
        lemma_json_fields_index(r->Object_0@);
        if e.source is Some && e.target is Some && e.files is Some {
            let sf = spec_json_fields(r->Object_0@);
            let sp = spec_edge_to_json(e@)->Object_0;
            assert(r->Object_0@.len() == 5);
            assert(sf.len() == 5);
            assert(sp.len() == 5);
            assert(sf[0] =~~= ("source"@, JsonV::Text(e@.source->0)));
            assert(sp[0] == ("source"@, JsonV::Text(e@.source->0)));
            assert(sf[1] =~~= ("target"@, JsonV::Text(e@.target->0)));
            assert(sp[1] == ("target"@, JsonV::Text(e@.target->0)));
            assert(sf[2] =~~= ("relation"@, JsonV::Text(spec_relation_label(e@.relation))));
            assert(sp[2] == ("relation"@, JsonV::Text(spec_relation_label(e@.relation))));
            assert(sf[3] =~~= ("strength_milli"@, JsonV::Int(e@.strength_milli as u64)));
            assert(sp[3] == ("strength_milli"@, JsonV::Int(e@.strength_milli as u64)));
            assert(sf[4] =~~= ("files"@, JsonV::Int(e@.files->0 as u64)));
            assert(sp[4] == ("files"@, JsonV::Int(e@.files->0 as u64)));
            assert(sf =~~= sp);
            assert(spec_json_view(r) =~~= spec_edge_to_json(e@));
        } else if e.source is Some && e.target is Some && e.files is None {
            let sf = spec_json_fields(r->Object_0@);
            let sp = spec_edge_to_json(e@)->Object_0;
            assert(r->Object_0@.len() == 4);
            assert(sf.len() == 4);
            assert(sp.len() == 4);
            assert(sf[0] =~~= ("source"@, JsonV::Text(e@.source->0)));
            assert(sp[0] == ("source"@, JsonV::Text(e@.source->0)));
            assert(sf[1] =~~= ("target"@, JsonV::Text(e@.target->0)));
            assert(sp[1] == ("target"@, JsonV::Text(e@.target->0)));
            assert(sf[2] =~~= ("relation"@, JsonV::Text(spec_relation_label(e@.relation))));
            assert(sp[2] == ("relation"@, JsonV::Text(spec_relation_label(e@.relation))));
            assert(sf[3] =~~= ("strength_milli"@, JsonV::Int(e@.strength_milli as u64)));
            assert(sp[3] == ("strength_milli"@, JsonV::Int(e@.strength_milli as u64)));
            assert(sf =~~= sp);
            assert(spec_json_view(r) =~~= spec_edge_to_json(e@));
        } else if e.source is Some && e.target is None && e.files is Some {
            let sf = spec_json_fields(r->Object_0@);
            let sp = spec_edge_to_json(e@)->Object_0;
            assert(r->Object_0@.len() == 4);
            assert(sf.len() == 4);
            assert(sp.len() == 4);
            assert(sf[0] =~~= ("source"@, JsonV::Text(e@.source->0)));
            assert(sp[0] == ("source"@, JsonV::Text(e@.source->0)));
            assert(sf[1] =~~= ("relation"@, JsonV::Text(spec_relation_label(e@.relation))));
            assert(sp[1] == ("relation"@, JsonV::Text(spec_relation_label(e@.relation))));
            assert(sf[2] =~~= ("strength_milli"@, JsonV::Int(e@.strength_milli as u64)));
            assert(sp[2] == ("strength_milli"@, JsonV::Int(e@.strength_milli as u64)));
            assert(sf[3] =~~= ("files"@, JsonV::Int(e@.files->0 as u64)));
            assert(sp[3] == ("files"@, JsonV::Int(e@.files->0 as u64)));
            assert(sf =~~= sp);
            assert(spec_json_view(r) =~~= spec_edge_to_json(e@));
        } else if e.source is Some && e.target is None && e.files is None {
            let sf = spec_json_fields(r->Object_0@);
            let sp = spec_edge_to_json(e@)->Object_0;
            assert(r->Object_0@.len() == 3);
            assert(sf.len() == 3);
            assert(sp.len() == 3);
            assert(sf[0] =~~= ("source"@, JsonV::Text(e@.source->0)));
            assert(sp[0] == ("source"@, JsonV::Text(e@.source->0)));
            assert(sf[1] =~~= ("relation"@, JsonV::Text(spec_relation_label(e@.relation))));
            assert(sp[1] == ("relation"@, JsonV::Text(spec_relation_label(e@.relation))));
            assert(sf[2] =~~= ("strength_milli"@, JsonV::Int(e@.strength_milli as u64)));
            assert(sp[2] == ("strength_milli"@, JsonV::Int(e@.strength_milli as u64)));
            assert(sf =~~= sp);
            assert(spec_json_view(r) =~~= spec_edge_to_json(e@));
        } else if e.source is None && e.target is Some && e.files is Some {
            let sf = spec_json_fields(r->Object_0@);
            let sp = spec_edge_to_json(e@)->Object_0;
            assert(r->Object_0@.len() == 4);
            assert(sf.len() == 4);
            assert(sp.len() == 4);
            assert(sf[0] =~~= ("target"@, JsonV::Text(e@.target->0)));
            assert(sp[0] == ("target"@, JsonV::Text(e@.target->0)));
            assert(sf[1] =~~= ("relation"@, JsonV::Text(spec_relation_label(e@.relation))));
            assert(sp[1] == ("relation"@, JsonV::Text(spec_relation_label(e@.relation))));
            assert(sf[2] =~~= ("strength_milli"@, JsonV::Int(e@.strength_milli as u64)));
            assert(sp[2] == ("strength_milli"@, JsonV::Int(e@.strength_milli as u64)));
            assert(sf[3] =~~= ("files"@, JsonV::Int(e@.files->0 as u64)));
            assert(sp[3] == ("files"@, JsonV::Int(e@.files->0 as u64)));
            assert(sf =~~= sp);
            assert(spec_json_view(r) =~~= spec_edge_to_json(e@));
        } else if e.source is None && e.target is Some && e.files is None {
            let sf = spec_json_fields(r->Object_0@);
            let sp = spec_edge_to_json(e@)->Object_0;
            assert(r->Object_0@.len() == 3);
            assert(sf.len() == 3);
            assert(sp.len() == 3);
            assert(sf[0] =~~= ("target"@, JsonV::Text(e@.target->0)));
            assert(sp[0] == ("target"@, JsonV::Text(e@.target->0)));
            assert(sf[1] =~~= ("relation"@, JsonV::Text(spec_relation_label(e@.relation))));
            assert(sp[1] == ("relation"@, JsonV::Text(spec_relation_label(e@.relation))));
            assert(sf[2] =~~= ("strength_milli"@, JsonV::Int(e@.strength_milli as u64)));
            assert(sp[2] == ("strength_milli"@, JsonV::Int(e@.strength_milli as u64)));
            assert(sf =~~= sp);
            assert(spec_json_view(r) =~~= spec_edge_to_json(e@));
        } else if e.source is None && e.target is None && e.files is Some {
            let sf = spec_json_fields(r->Object_0@);
            let sp = spec_edge_to_json(e@)->Object_0;
            assert(r->Object_0@.len() == 3);
            assert(sf.len() == 3);
            assert(sp.len() == 3);
            assert(sf[0] =~~= ("relation"@, JsonV::Text(spec_relation_label(e@.relation))));
            assert(sp[0] == ("relation"@, JsonV::Text(spec_relation_label(e@.relation))));
            assert(sf[1] =~~= ("strength_milli"@, JsonV::Int(e@.strength_milli as u64)));
            assert(sp[1] == ("strength_milli"@, JsonV::Int(e@.strength_milli as u64)));
            assert(sf[2] =~~= ("files"@, JsonV::Int(e@.files->0 as u64)));
            assert(sp[2] == ("files"@, JsonV::Int(e@.files->0 as u64)));
            assert(sf =~~= sp);
            assert(spec_json_view(r) =~~= spec_edge_to_json(e@));
        } else if e.source is None && e.target is None && e.files is None {
            let sf = spec_json_fields(r->Object_0@);
            let sp = spec_edge_to_json(e@)->Object_0;
            assert(r->Object_0@.len() == 2);
            assert(sf.len() == 2);
            assert(sp.len() == 2);
            assert(sf[0] =~~= ("relation"@, JsonV::Text(spec_relation_label(e@.relation))));
            assert(sp[0] == ("relation"@, JsonV::Text(spec_relation_label(e@.relation))));
            assert(sf[1] =~~= ("strength_milli"@, JsonV::Int(e@.strength_milli as u64)));
            assert(sp[1] == ("strength_milli"@, JsonV::Int(e@.strength_milli as u64)));
            assert(sf =~~= sp);
            assert(spec_json_view(r) =~~= spec_edge_to_json(e@));
        }
    }
    r
}

/// Read one dependency edge back.
pub fn edge_from_json(j: &JsonValue) -> (r: Option<crate::types::DepEdge>)
    ensures
        r matches Some(m) ==> spec_edge_from_json(spec_json_view(*j)) == Some(m@),
        r is None ==> spec_edge_from_json(spec_json_view(*j)) is None,
{
    let fields = match j {
        JsonValue::Object(fs) => fs,
        _ => {
            return None;
        },
    };
    let relation: DepKind = match json_obj_get(fields, "relation") {
        Some(JsonValue::Text(s)) => {
            match relation_from_label(s.as_str()) {
                Some(k) => k,
                None => {
                    return None;
                },
            }
        },
        _ => {
            return None;
        },
    };
    let sm64: u64 = match json_obj_get(fields, "strength_milli") {
        Some(JsonValue::Int(n)) => *n,
        _ => {
            return None;
        },
    };
    if sm64 > u32::MAX as u64 {
        return None;
    }
    let source: Option<String> = match json_obj_get(fields, "source") {
        Some(JsonValue::Text(s)) => Some(s.clone()),
        _ => None,
    };
    let target: Option<String> = match json_obj_get(fields, "target") {
        Some(JsonValue::Text(s)) => Some(s.clone()),
        _ => None,
    };
    let files: Option<u32> = match json_obj_get(fields, "files") {
        Some(JsonValue::Int(f)) => {
            if *f <= u32::MAX as u64 {
                Some(*f as u32)
            } else {
                None
            }
        },
        _ => None,
    };
    let out = crate::types::DepEdge {
        source,
        target,
        relation,
        strength_milli: sm64 as u32,
        files,
    };
    proof {
        assert(spec_edge_from_json(spec_json_view(*j)) matches Some(m2) && m2 =~~= out@);
    }
    Some(out)
}

/// Serialize one module record to the interchange format.
pub fn module_to_json(m: &crate::types::ModuleIR) -> (r: JsonValue)
    ensures
        spec_json_view(r) == spec_module_to_json(m@),
{
    let mut fields: Vec<(String, JsonValue)> = Vec::new();
    fields.push(("path".to_owned(), JsonValue::Text(m.path.clone())));
    match &m.language {
        Some(lang) => {
            fields.push(("language".to_owned(), JsonValue::Text(lang.clone())));
        },
        None => {},
    }
    fields.push(("loc".to_owned(), JsonValue::Int(m.loc as u64)));
    fields.push(("comment_lines".to_owned(), JsonValue::Int(m.comment_lines as u64)));
    fields.push(("blank_lines".to_owned(), JsonValue::Int(m.blank_lines as u64)));
    fields.push(("symbols".to_owned(), JsonValue::List(symbols_to_json(&m.symbols))));
    fields.push(("metrics".to_owned(), JsonValue::List(metrics_to_json(&m.metrics))));
    fields.push(("outgoing".to_owned(), JsonValue::List(edges_to_json(&m.outgoing))));
    fields.push(("incoming".to_owned(), JsonValue::List(edges_to_json(&m.incoming))));
    let r = JsonValue::Object(fields);
    proof {
        lemma_json_fields_index(r->Object_0@);
        assert(m.symbols@.map_values(|x: crate::types::Symbol| x@) =~= m@.symbols);
        assert(m.metrics@.map_values(|x: crate::types::QualityMetric| x@) =~= m@.metrics);
        assert(m.outgoing@.map_values(|x: crate::types::DepEdge| x@) =~= m@.outgoing);
        assert(m.incoming@.map_values(|x: crate::types::DepEdge| x@) =~= m@.incoming);
        if m.language is Some {
            let sf = spec_json_fields(r->Object_0@);
            let sp = spec_module_to_json(m@)->Object_0;
            assert(r->Object_0@.len() == 9);
            assert(sf.len() == 9);
            assert(sp.len() == 9);
            assert(sf[0] =~~= ("path"@, JsonV::Text(m@.path)));
            assert(sp[0] == ("path"@, JsonV::Text(m@.path)));
            assert(sf[1] =~~= ("language"@, JsonV::Text(m@.language->0)));
            assert(sp[1] == ("language"@, JsonV::Text(m@.language->0)));
            assert(sf[2] =~~= ("loc"@, JsonV::Int(m@.loc as u64)));
            assert(sp[2] == ("loc"@, JsonV::Int(m@.loc as u64)));
            assert(sf[3] =~~= ("comment_lines"@, JsonV::Int(m@.comment_lines as u64)));
            assert(sp[3] == ("comment_lines"@, JsonV::Int(m@.comment_lines as u64)));
            assert(sf[4] =~~= ("blank_lines"@, JsonV::Int(m@.blank_lines as u64)));
            assert(sp[4] == ("blank_lines"@, JsonV::Int(m@.blank_lines as u64)));
            assert(sf[5] =~~= ("symbols"@, JsonV::List(spec_symbols_to_json(m@.symbols))));
            assert(sp[5] == ("symbols"@, JsonV::List(spec_symbols_to_json(m@.symbols))));
            assert(sf[6] =~~= ("metrics"@, JsonV::List(spec_metrics_to_json(m@.metrics))));
            assert(sp[6] == ("metrics"@, JsonV::List(spec_metrics_to_json(m@.metrics))));
            assert(sf[7] =~~= ("outgoing"@, JsonV::List(spec_edges_to_json(m@.outgoing))));
            assert(sp[7] == ("outgoing"@, JsonV::List(spec_edges_to_json(m@.outgoing))));
            assert(sf[8] =~~= ("incoming"@, JsonV::List(spec_edges_to_json(m@.incoming))));
            assert(sp[8] == ("incoming"@, JsonV::List(spec_edges_to_json(m@.incoming))));
            assert(sf =~~= sp);
            assert(spec_json_view(r) =~~= spec_module_to_json(m@));
        } else {
            let sf = spec_json_fields(r->Object_0@);
            let sp = spec_module_to_json(m@)->Object_0;
            assert(r->Object_0@.len() == 8);
            assert(sf.len() == 8);
            assert(sp.len() == 8);
            assert(sf[0] =~~= ("path"@, JsonV::Text(m@.path)));
            assert(sp[0] == ("path"@, JsonV::Text(m@.path)));
            assert(sf[1] =~~= ("loc"@, JsonV::Int(m@.loc as u64)));
            assert(sp[1] == ("loc"@, JsonV::Int(m@.loc as u64)));
            assert(sf[2] =~~= ("comment_lines"@, JsonV::Int(m@.comment_lines as u64)));
            assert(sp[2] == ("comment_lines"@, JsonV::Int(m@.comment_lines as u64)));
            assert(sf[3] =~~= ("blank_lines"@, JsonV::Int(m@.blank_lines as u64)));
            assert(sp[3] == ("blank_lines"@, JsonV::Int(m@.blank_lines as u64)));
            assert(sf[4] =~~= ("symbols"@, JsonV::List(spec_symbols_to_json(m@.symbols))));
            assert(sp[4] == ("symbols"@, JsonV::List(spec_symbols_to_json(m@.symbols))));
            assert(sf[5] =~~= ("metrics"@, JsonV::List(spec_metrics_to_json(m@.metrics))));
            assert(sp[5] == ("metrics"@, JsonV::List(spec_metrics_to_json(m@.metrics))));
            assert(sf[6] =~~= ("outgoing"@, JsonV::List(spec_edges_to_json(m@.outgoing))));
            assert(sp[6] == ("outgoing"@, JsonV::List(spec_edges_to_json(m@.outgoing))));
            assert(sf[7] =~~= ("incoming"@, JsonV::List(spec_edges_to_json(m@.incoming))));
            assert(sp[7] == ("incoming"@, JsonV::List(spec_edges_to_json(m@.incoming))));
            assert(sf =~~= sp);
            assert(spec_json_view(r) =~~= spec_module_to_json(m@));
        }
    }
    r
}

/// Read one module record back from the interchange format.
pub fn module_from_json(j: &JsonValue) -> (r: Option<crate::types::ModuleIR>)
    ensures
        r matches Some(m) ==> spec_module_from_json(spec_json_view(*j)) == Some(m@),
        r is None ==> spec_module_from_json(spec_json_view(*j)) is None,
{
    let fields = match j {
        JsonValue::Object(fs) => fs,
        _ => {
            return None;
        },
    };
    let path: String = match json_obj_get(fields, "path") {
        Some(JsonValue::Text(s)) => s.clone(),
        _ => {
            return None;
        },
    };
    let loc64: u64 = match json_obj_get(fields, "loc") {
        Some(JsonValue::Int(n)) => *n,
        _ => {
            return None;
        },
    };
    let comment64: u64 = match json_obj_get(fields, "comment_lines") {
        Some(JsonValue::Int(n)) => *n,
        _ => {
            return None;
        },
    };
    let blank64: u64 = match json_obj_get(fields, "blank_lines") {
        Some(JsonValue::Int(n)) => *n,
        _ => {
            return None;
        },
    };
    if loc64 > u32::MAX as u64 || comment64 > u32::MAX as u64 || blank64 > u32::MAX as u64 {
        return None;
    }
    let symbols: Vec<crate::types::Symbol> = match json_obj_get(fields, "symbols") {
        Some(JsonValue::List(docs)) => {
            match symbols_from_json(docs) {
                Some(v) => v,
                None => {
                    return None;
                },
            }
        },
        _ => {
            return None;
        },
    };
    let ms: Vec<crate::types::QualityMetric> = match json_obj_get(fields, "metrics") {
        Some(JsonValue::List(docs)) => {
            match metrics_from_json(docs) {
                Some(v) => v,
                None => {
                    return None;
                },
            }
        },
        _ => {
            return None;
        },
    };
    let outgoing: Vec<crate::types::DepEdge> = match json_obj_get(fields, "outgoing") {
        Some(JsonValue::List(docs)) => {
            match edges_from_json(docs) {
                Some(v) => v,
                None => {
                    return None;
                },
            }
        },
        _ => {
            return None;
        },
    };
    let incoming: Vec<crate::types::DepEdge> = match json_obj_get(fields, "incoming") {
        Some(JsonValue::List(docs)) => {
            match edges_from_json(docs) {
                Some(v) => v,
                None => {
                    return None;
                },
            }
        },
        _ => {
            return None;
        },
    };
    let language: Option<String> = match json_obj_get(fields, "language") {
        Some(JsonValue::Text(s)) => Some(s.clone()),
        _ => None,
    };
    let out = crate::types::ModuleIR {
        path,
        language,
        loc: loc64 as u32,
        comment_lines: comment64 as u32,
        blank_lines: blank64 as u32,
        symbols,
        metrics: ms,
        outgoing,
        incoming,
    };
    proof {
        assert(out@.symbols =~~= out.symbols@.map_values(|x: crate::types::Symbol| x@));
        assert(out@.metrics =~~= out.metrics@.map_values(
            |x: crate::types::QualityMetric| x@,
        ));
        assert(out@.outgoing =~~= out.outgoing@.map_values(|x: crate::types::DepEdge| x@));
        assert(out@.incoming =~~= out.incoming@.map_values(|x: crate::types::DepEdge| x@));
        assert(spec_module_from_json(spec_json_view(*j)) matches Some(m2) && m2 =~~= out@);
    }
    Some(out)
}

} // verus!
