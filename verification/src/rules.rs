use vstd::prelude::*;
use vstd::string::StringExecFns;
use crate::text::{dec_digits, u32_to_string, u64_to_string};
use crate::types::{
    ModuleIR, ModuleIRV, QualityMetric, QualityMetricV, Severity, Symbol, SymbolKind, SymbolV,
};

verus! {

/// The views of a vector of findings.
pub open spec fn metric_views(s: Seq<QualityMetric>) -> Seq<QualityMetricV> {
    s.map_values(|x: QualityMetric| x@)
}

/// A message of the shape `<prefix><value><middle><threshold>`.
pub open spec fn spec_breach_msg(prefix: Seq<char>, v: int, middle: Seq<char>, t: int) -> Seq<
    char,
> {
    prefix + dec_digits(v) + middle + dec_digits(t)
}

fn breach_msg(prefix: &str, v: u64, middle: &str, t: u64) -> (r: String)
    ensures
        r@ == spec_breach_msg(prefix@, v as int, middle@, t as int),
{
    let mut s = prefix.to_owned();
    s.append(u64_to_string(v).as_str());
    s.append(middle);
    s.append(u64_to_string(t).as_str());
    proof {
        assert(s@ =~= spec_breach_msg(prefix@, v as int, middle@, t as int));
    }
    s
}

/// Comma-separated join of rendered parts.
pub open spec fn spec_join(parts: Seq<Seq<char>>) -> Seq<char>
    decreases parts.len(),
{
    if parts.len() == 0 {
        Seq::empty()
    } else if parts.len() == 1 {
        parts[0]
    } else {
        spec_join(parts.drop_last()) + ", "@ + parts.last()
    }
}

/// Emits one informational finding with a module's code line count, and a
/// breach finding when it exceeds the configured maximum.
pub struct FileSizeRule {
    pub max_loc: u32,
    pub severity: Severity,
}

/// The findings of the file-size rule on a module: always the measured
/// `file_loc`, and a `file_size` breach exactly when `loc` exceeds the
/// maximum.
pub open spec fn spec_file_size_check(max_loc: u32, sev: Severity, m: ModuleIRV) -> Seq<
    QualityMetricV,
> {
    let info = QualityMetricV {
        name: "file_loc"@,
        value: m.loc as u64,
        threshold: Some(max_loc as u64),
        severity: Severity::Info,
        message: None,
    };
    if m.loc > max_loc {
        seq![
            info,
            QualityMetricV {
                name: "file_size"@,
                value: m.loc as u64,
                threshold: Some(max_loc as u64),
                severity: sev,
                message: Some(
                    spec_breach_msg(
                        "File has "@,
                        m.loc as int,
                        " lines, exceeds threshold of "@,
                        max_loc as int,
                    ),
                ),
            },
        ]
    } else {
        seq![info]
    }
}

impl FileSizeRule {
    /// A file-size rule with the given threshold and breach severity.
    pub fn new(max_loc: u32, severity: Severity) -> (r: FileSizeRule)
        ensures
            r.max_loc == max_loc && r.severity == severity,
    {
        FileSizeRule { max_loc, severity }
    }

    /// The rule's registry name.
    pub fn name(&self) -> (r: &'static str)
        ensures
            r@ == "file_size"@,
    {
        "file_size"
    }

    /// Check a module against the threshold.
    pub fn check_module(&self, module: &ModuleIR) -> (r: Vec<QualityMetric>)
        ensures
            metric_views(r@) == spec_file_size_check(self.max_loc, self.severity, module@),
    {
        let mut out: Vec<QualityMetric> = Vec::new();
        out.push(
            QualityMetric {
                name: "file_loc".to_owned(),
                value: module.loc as u64,
                threshold: Some(self.max_loc as u64),
                severity: Severity::Info,
                message: None,
            },
        );
        if module.loc > self.max_loc {
            out.push(
                QualityMetric {
                    name: "file_size".to_owned(),
                    value: module.loc as u64,
                    threshold: Some(self.max_loc as u64),
                    severity: self.severity,
                    message: Some(
                        breach_msg(
                            "File has ",
                            module.loc as u64,
                            " lines, exceeds threshold of ",
                            self.max_loc as u64,
                        ),
                    ),
                },
            );
        }
        proof {
            assert(metric_views(out@) =~~= spec_file_size_check(
                self.max_loc,
                self.severity,
                module@,
            ));
        }
        out
    }

    /// The file-size rule reports nothing per symbol.
    pub fn check_symbol(&self, symbol: &Symbol) -> (r: Vec<QualityMetric>)
        ensures
            r@.len() == 0,
    {
        let _ = symbol;
        Vec::new()
    }
}

impl Default for FileSizeRule {
    /// The default file-size rule: 300 lines, warning severity.
    fn default() -> (r: FileSizeRule)
        ensures
            r.max_loc == 300 && r.severity is Warning,
    {
        FileSizeRule::new(300, Severity::Warning)
    }
}

/// Emits coupling findings for a module: its fan-out and import count
/// checked against their thresholds, and its fan-in as information only.
pub struct CouplingRule {
    pub max_fan_out: usize,
    pub max_imports: usize,
    pub severity: Severity,
}

/// The findings of the coupling rule on a module: `fan_out` (breaching over
/// `max_fan_out`), `fan_in` (never breaching), and `import_count` (breaching
/// over `max_imports`); both counted edge lists are the module's outgoing
/// edges.
pub open spec fn spec_coupling_check(
    max_fan_out: usize,
    max_imports: usize,
    sev: Severity,
    m: ModuleIRV,
) -> Seq<QualityMetricV> {
    let fan_out = m.outgoing.len();
    let fan_in = m.incoming.len();
    seq![
        QualityMetricV {
            name: "fan_out"@,
            value: fan_out as u64,
            threshold: Some(max_fan_out as u64),
            severity: if fan_out > max_fan_out {
                sev
            } else {
                Severity::Info
            },
            message: if fan_out > max_fan_out {
                Some(
                    spec_breach_msg(
                        "Module has "@,
                        fan_out as int,
                        " dependencies, exceeds threshold of "@,
                        max_fan_out as int,
                    ),
                )
            } else {
                None
            },
        },
        QualityMetricV {
            name: "fan_in"@,
            value: fan_in as u64,
            threshold: None,
            severity: Severity::Info,
            message: None,
        },
        QualityMetricV {
            name: "import_count"@,
            value: fan_out as u64,
            threshold: Some(max_imports as u64),
            severity: if fan_out > max_imports {
                sev
            } else {
                Severity::Info
            },
            message: if fan_out > max_imports {
                Some(
                    spec_breach_msg(
                        "Module has "@,
                        fan_out as int,
                        " imports, exceeds threshold of "@,
                        max_imports as int,
                    ),
                )
            } else {
                None
            },
        },
    ]
}

impl CouplingRule {
    /// A coupling rule with the given thresholds and breach severity.
    pub fn new(max_fan_out: usize, max_imports: usize, severity: Severity) -> (r: CouplingRule)
        ensures
            r.max_fan_out == max_fan_out && r.max_imports == max_imports && r.severity
                == severity,
    {
        CouplingRule { max_fan_out, max_imports, severity }
    }

    /// The rule's registry name.
    pub fn name(&self) -> (r: &'static str)
        ensures
            r@ == "coupling"@,
    {
        "coupling"
    }

    /// Check a module's coupling counts against the thresholds.
    pub fn check_module(&self, module: &ModuleIR) -> (r: Vec<QualityMetric>)
        ensures
            metric_views(r@) == spec_coupling_check(
                self.max_fan_out,
                self.max_imports,
                self.severity,
                module@,
            ),
    {
        let fan_out = module.outgoing.len();
        let fan_in = module.incoming.len();
        let mut out: Vec<QualityMetric> = Vec::new();
        let fan_out_breach = fan_out > self.max_fan_out;
        out.push(
            QualityMetric {
                name: "fan_out".to_owned(),
                value: fan_out as u64,
                threshold: Some(self.max_fan_out as u64),
                severity: if fan_out_breach {
                    self.severity
                } else {
                    Severity::Info
                },
                message: if fan_out_breach {
                    Some(
                        breach_msg(
                            "Module has ",
                            fan_out as u64,
                            " dependencies, exceeds threshold of ",
                            self.max_fan_out as u64,
                        ),
                    )
                } else {
                    None
                },
            },
        );
        out.push(
            QualityMetric {
                name: "fan_in".to_owned(),
                value: fan_in as u64,
                threshold: None,
                severity: Severity::Info,
                message: None,
            },
        );
        let import_breach = fan_out > self.max_imports;
        out.push(
            QualityMetric {
                name: "import_count".to_owned(),
                value: fan_out as u64,
                threshold: Some(self.max_imports as u64),
                severity: if import_breach {
                    self.severity
                } else {
                    Severity::Info
                },
                message: if import_breach {
                    Some(
                        breach_msg(
                            "Module has ",
                            fan_out as u64,
                            " imports, exceeds threshold of ",
                            self.max_imports as u64,
                        ),
                    )
                } else {
                    None
                },
            },
        );
        proof {
            assert(metric_views(out@) =~~= spec_coupling_check(
                self.max_fan_out,
                self.max_imports,
                self.severity,
                module@,
            ));
        }
        out
    }

    /// The coupling rule reports nothing per symbol.
    pub fn check_symbol(&self, symbol: &Symbol) -> (r: Vec<QualityMetric>)
        ensures
            r@.len() == 0,
    {
        let _ = symbol;
        Vec::new()
    }
}

impl Default for CouplingRule {
    /// The default coupling rule: fan-out 7, imports 15, warning severity.
    fn default() -> (r: CouplingRule)
        ensures
            r.max_fan_out == 7 && r.max_imports == 15 && r.severity is Warning,
    {
        CouplingRule::new(7, 15, Severity::Warning)
    }
}

/// A symbol is an oversized function when it is a `Function` whose span
/// exceeds the maximum.
pub open spec fn spec_is_large_fn(max_loc: u32) -> spec_fn(SymbolV) -> bool {
    |s: SymbolV| s.kind is Function && s.loc > max_loc
}

/// The rendered detail for one oversized function: `name (loc LOC)`.
pub open spec fn spec_fn_size_detail(s: SymbolV) -> Seq<char> {
    s.name + " ("@ + dec_digits(s.loc as int) + " LOC)"@
}

/// Emits findings for functions whose line span exceeds the configured
/// maximum: one finding per oversized function symbol, and one aggregate
/// module finding naming them all.
pub struct FunctionSizeRule {
    pub max_loc: u32,
    pub severity: Severity,
}

/// The aggregate finding of the function-size rule on a module: nothing when
/// no function is oversized, else one `large_function_count` breach listing
/// every oversized function with its span.
pub open spec fn spec_function_size_check(max_loc: u32, sev: Severity, m: ModuleIRV) -> Seq<
    QualityMetricV,
> {
    let large = m.symbols.filter(spec_is_large_fn(max_loc));
    if large.len() == 0 {
        Seq::empty()
    } else {
        seq![
            QualityMetricV {
                name: "large_function_count"@,
                value: large.len() as u64,
                threshold: Some(0u64),
                severity: sev,
                message: Some(
                    dec_digits(large.len() as int) + " functions exceed "@ + dec_digits(
                        max_loc as int,
                    ) + " lines: "@ + spec_join(large.map_values(|s: SymbolV| spec_fn_size_detail(s))),
                ),
            },
        ]
    }
}

/// The per-symbol finding of the function-size rule: one `function_size`
/// breach exactly when the symbol is a function spanning more than the
/// maximum.
pub open spec fn spec_function_size_symbol(max_loc: u32, sev: Severity, s: SymbolV) -> Seq<
    QualityMetricV,
> {
    if s.kind is Function && s.loc > max_loc {
        seq![
            QualityMetricV {
                name: "function_size"@,
                value: s.loc as u64,
                threshold: Some(max_loc as u64),
                severity: sev,
                message: Some(
                    spec_breach_msg(
                        "Function has "@,
                        s.loc as int,
                        " lines, exceeds threshold of "@,
                        max_loc as int,
                    ),
                ),
            },
        ]
    } else {
        Seq::empty()
    }
}

/// Extending the scanned prefix extends the filtered sequence by at most the
/// new element.
proof fn lemma_filter_snoc<A>(s: Seq<A>, pred: spec_fn(A) -> bool, i: int)
    requires
        0 <= i < s.len(),
    ensures
        s.take(i + 1).filter(pred) == if pred(s[i]) {
            s.take(i).filter(pred).push(s[i])
        } else {
            s.take(i).filter(pred)
        },
{
    reveal(Seq::filter);
    assert(s.take(i + 1).drop_last() =~= s.take(i));
    assert(s.take(i + 1).last() == s[i]);
    if s.take(i + 1).len() == 0 {
    } else {
        if pred(s[i]) {
            assert(s.take(i + 1).filter(pred) =~= s.take(i).filter(pred).push(s[i]));
        }
    }
}

/// Joining one more part appends a separator except before the first part.
proof fn lemma_join_push(parts: Seq<Seq<char>>, p: Seq<char>)
    ensures
        spec_join(parts.push(p)) == if parts.len() == 0 {
            p
        } else {
            spec_join(parts) + ", "@ + p
        },
{
    assert(parts.push(p).drop_last() =~= parts);
    assert(parts.push(p).last() == p);
    if parts.len() == 0 {
        assert(spec_join(parts.push(p)) == parts.push(p)[0]);
        assert(parts.push(p)[0] == p);
    }
}

impl FunctionSizeRule {
    /// A function-size rule with the given threshold and breach severity.
    pub fn new(max_loc: u32, severity: Severity) -> (r: FunctionSizeRule)
        ensures
            r.max_loc == max_loc && r.severity == severity,
    {
        FunctionSizeRule { max_loc, severity }
    }

    /// The rule's registry name.
    pub fn name(&self) -> (r: &'static str)
        ensures
            r@ == "function_size"@,
    {
        "function_size"
    }

    /// Check a module: aggregate all oversized functions into one finding.
    pub fn check_module(&self, module: &ModuleIR) -> (r: Vec<QualityMetric>)
        ensures
            metric_views(r@) == spec_function_size_check(self.max_loc, self.severity, module@),
    {
        let ghost pred = spec_is_large_fn(self.max_loc);
        let mut count: u64 = 0;
        let mut details = String::new();
        let ghost syms = module@.symbols;
        proof {
            assert(syms.take(0) =~= Seq::<SymbolV>::empty());
            reveal(Seq::filter);
            assert(syms.take(0).filter(pred).len() == 0);
            assert(syms.take(0).filter(pred).map_values(
                |s: SymbolV| spec_fn_size_detail(s),
            ) =~= Seq::<Seq<char>>::empty());
        }
        let mut i: usize = 0;
        while i < module.symbols.len()
            invariant
                0 <= i <= module.symbols@.len(),
                pred == spec_is_large_fn(self.max_loc),
                syms == module@.symbols,
                syms.len() == module.symbols@.len(),
                count == syms.take(i as int).filter(pred).len(),
                count <= i,
                details@ == spec_join(
                    syms.take(i as int).filter(pred).map_values(
                        |s: SymbolV| spec_fn_size_detail(s),
                    ),
                ),
            decreases module.symbols@.len() - i,
        {
            let sym = &module.symbols[i];
            proof {
                assert(syms[i as int] == module.symbols@[i as int]@);
                lemma_filter_snoc(syms, pred, i as int);
            }
            let is_fn = matches!(sym.kind, SymbolKind::Function);
            if is_fn && sym.loc > self.max_loc {
                let mut part = sym.name.clone();
                part.append(" (");
                part.append(u32_to_string(sym.loc).as_str());
                part.append(" LOC)");
                proof {
                    assert(part@ =~= spec_fn_size_detail(syms[i as int]));
                    let f = syms.take(i as int).filter(pred);
                    lemma_join_push(
                        f.map_values(|s: SymbolV| spec_fn_size_detail(s)),
                        part@,
                    );
                    assert(f.push(syms[i as int]).map_values(
                        |s: SymbolV| spec_fn_size_detail(s),
                    ) =~= f.map_values(|s: SymbolV| spec_fn_size_detail(s)).push(part@));
                    f.lemma_filter_len(pred);
                }
                if count == 0 {
                    details.append(part.as_str());
                } else {
                    details.append(", ");
                    details.append(part.as_str());
                }
                count = count + 1;
            }
            i = i + 1;
        }
        proof {
            assert(syms.take(syms.len() as int) =~= syms);
        }
        let mut out: Vec<QualityMetric> = Vec::new();
        if count > 0 {
            let mut msg = u64_to_string(count);
            msg.append(" functions exceed ");
            msg.append(u32_to_string(self.max_loc).as_str());
            msg.append(" lines: ");
            msg.append(details.as_str());
            out.push(
                QualityMetric {
                    name: "large_function_count".to_owned(),
                    value: count,
                    threshold: Some(0),
                    severity: self.severity,
                    message: Some(msg),
                },
            );
        }
        proof {
            assert(metric_views(out@) =~~= spec_function_size_check(
                self.max_loc,
                self.severity,
                module@,
            ));
        }
        out
    }

    /// Check one symbol against the threshold.
    pub fn check_symbol(&self, symbol: &Symbol) -> (r: Vec<QualityMetric>)
        ensures
            metric_views(r@) == spec_function_size_symbol(self.max_loc, self.severity, symbol@),
    {
        let mut out: Vec<QualityMetric> = Vec::new();
        let is_fn = matches!(symbol.kind, SymbolKind::Function);
        if is_fn && symbol.loc > self.max_loc {
            out.push(
                QualityMetric {
                    name: "function_size".to_owned(),
                    value: symbol.loc as u64,
                    threshold: Some(self.max_loc as u64),
                    severity: self.severity,
                    message: Some(
                        breach_msg(
                            "Function has ",
                            symbol.loc as u64,
                            " lines, exceeds threshold of ",
                            self.max_loc as u64,
                        ),
                    ),
                },
            );
        }
        proof {
            assert(metric_views(out@) =~~= spec_function_size_symbol(
                self.max_loc,
                self.severity,
                symbol@,
            ));
        }
        out
    }
}

impl Default for FunctionSizeRule {
    /// The default function-size rule: 40 lines, warning severity.
    fn default() -> (r: FunctionSizeRule)
        ensures
            r.max_loc == 40 && r.severity is Warning,
    {
        FunctionSizeRule::new(40, Severity::Warning)
    }
}

/// The branching complexity recorded on a symbol, zero when absent.
pub open spec fn spec_complexity_of(s: SymbolV) -> u32 {
    match s.cyclomatic_complexity {
        Some(c) => c,
        None => 0u32,
    }
}

/// A symbol is an over-complex function when it is a `Function` whose
/// recorded branching complexity exceeds the maximum.
pub open spec fn spec_is_complex_fn(max: u32) -> spec_fn(SymbolV) -> bool {
    |s: SymbolV| s.kind is Function && spec_complexity_of(s) > max
}

/// The rendered detail for one over-complex function:
/// `name (complexity: c)`.
pub open spec fn spec_complexity_detail(s: SymbolV) -> Seq<char> {
    s.name + " (complexity: "@ + dec_digits(spec_complexity_of(s) as int) + ")"@
}

/// Emits findings for functions whose branching complexity exceeds the
/// configured maximum: one finding per such function symbol, and one
/// aggregate module finding naming them all.
pub struct ComplexityRule {
    pub max_complexity: u32,
    pub severity: Severity,
}

/// The aggregate finding of the complexity rule on a module: nothing when no
/// function is over-complex, else one `high_complexity_count` breach listing
/// every such function with its complexity.
pub open spec fn spec_complexity_check(max: u32, sev: Severity, m: ModuleIRV) -> Seq<
    QualityMetricV,
> {
    let complex = m.symbols.filter(spec_is_complex_fn(max));
    if complex.len() == 0 {
        Seq::empty()
    } else {
        seq![
            QualityMetricV {
                name: "high_complexity_count"@,
                value: complex.len() as u64,
                threshold: Some(0u64),
                severity: sev,
                message: Some(
                    dec_digits(complex.len() as int) + " functions exceed complexity threshold of "@
                        + dec_digits(max as int) + ": "@ + spec_join(
                        complex.map_values(|s: SymbolV| spec_complexity_detail(s)),
                    ),
                ),
            },
        ]
    }
}

/// The per-symbol finding of the complexity rule: one `cyclomatic_complexity`
/// breach exactly when the symbol is a function carrying a complexity above
/// the maximum.
pub open spec fn spec_complexity_symbol(max: u32, sev: Severity, s: SymbolV) -> Seq<
    QualityMetricV,
> {
    if s.kind is Function && (s.cyclomatic_complexity matches Some(c) && c > max) {
        seq![
            QualityMetricV {
                name: "cyclomatic_complexity"@,
                value: spec_complexity_of(s) as u64,
                threshold: Some(max as u64),
                severity: sev,
                message: Some(
                    spec_breach_msg(
                        "Cyclomatic complexity "@,
                        spec_complexity_of(s) as int,
                        " exceeds threshold of "@,
                        max as int,
                    ),
                ),
            },
        ]
    } else {
        Seq::empty()
    }
}

impl ComplexityRule {
    /// A complexity rule with the given threshold and breach severity.
    pub fn new(max_complexity: u32, severity: Severity) -> (r: ComplexityRule)
        ensures
            r.max_complexity == max_complexity && r.severity == severity,
    {
        ComplexityRule { max_complexity, severity }
    }

    /// The rule's registry name.
    pub fn name(&self) -> (r: &'static str)
        ensures
            r@ == "complexity"@,
    {
        "complexity"
    }

    /// Check a module: aggregate all over-complex functions into one finding.
    pub fn check_module(&self, module: &ModuleIR) -> (r: Vec<QualityMetric>)
        ensures
            metric_views(r@) == spec_complexity_check(self.max_complexity, self.severity, module@),
    {
        let ghost pred = spec_is_complex_fn(self.max_complexity);
        let mut count: u64 = 0;
        let mut details = String::new();
        let ghost syms = module@.symbols;
        proof {
            assert(syms.take(0) =~= Seq::<SymbolV>::empty());
            reveal(Seq::filter);
            assert(syms.take(0).filter(pred).len() == 0);
            assert(syms.take(0).filter(pred).map_values(
                |s: SymbolV| spec_complexity_detail(s),
            ) =~= Seq::<Seq<char>>::empty());
        }
        let mut i: usize = 0;
        while i < module.symbols.len()
            invariant
                0 <= i <= module.symbols@.len(),
                pred == spec_is_complex_fn(self.max_complexity),
                syms == module@.symbols,
                syms.len() == module.symbols@.len(),
                count == syms.take(i as int).filter(pred).len(),
                count <= i,
                details@ == spec_join(
                    syms.take(i as int).filter(pred).map_values(
                        |s: SymbolV| spec_complexity_detail(s),
                    ),
                ),
            decreases module.symbols@.len() - i,
        {
            let sym = &module.symbols[i];
            proof {
                assert(syms[i as int] == module.symbols@[i as int]@);
                lemma_filter_snoc(syms, pred, i as int);
            }
            let is_fn = matches!(sym.kind, SymbolKind::Function);
            let complexity: u32 = match sym.cyclomatic_complexity {
                Some(c) => c,
                None => 0,
            };
            if is_fn && complexity > self.max_complexity {
                let mut part = sym.name.clone();
                part.append(" (complexity: ");
                part.append(u32_to_string(complexity).as_str());
                part.append(")");
                proof {
                    assert(part@ =~= spec_complexity_detail(syms[i as int]));
                    let f = syms.take(i as int).filter(pred);
                    lemma_join_push(
                        f.map_values(|s: SymbolV| spec_complexity_detail(s)),
                        part@,
                    );
                    assert(f.push(syms[i as int]).map_values(
                        |s: SymbolV| spec_complexity_detail(s),
                    ) =~= f.map_values(|s: SymbolV| spec_complexity_detail(s)).push(part@));
                    f.lemma_filter_len(pred);
                }
                if count == 0 {
                    details.append(part.as_str());
                } else {
                    details.append(", ");
                    details.append(part.as_str());
                }
                count = count + 1;
            }
            i = i + 1;
        }
        proof {
            assert(syms.take(syms.len() as int) =~= syms);
        }
        let mut out: Vec<QualityMetric> = Vec::new();
        if count > 0 {
            let mut msg = u64_to_string(count);
            msg.append(" functions exceed complexity threshold of ");
            msg.append(u32_to_string(self.max_complexity).as_str());
            msg.append(": ");
            msg.append(details.as_str());
            out.push(
                QualityMetric {
                    name: "high_complexity_count".to_owned(),
                    value: count,
                    threshold: Some(0),
                    severity: self.severity,
                    message: Some(msg),
                },
            );
        }
        proof {
            assert(metric_views(out@) =~~= spec_complexity_check(
                self.max_complexity,
                self.severity,
                module@,
            ));
        }
        out
    }

    /// Check one symbol against the threshold.
    pub fn check_symbol(&self, symbol: &Symbol) -> (r: Vec<QualityMetric>)
        ensures
            metric_views(r@) == spec_complexity_symbol(self.max_complexity, self.severity, symbol@),
    {
        let mut out: Vec<QualityMetric> = Vec::new();
        let is_fn = matches!(symbol.kind, SymbolKind::Function);
        if is_fn {
            match symbol.cyclomatic_complexity {
                Some(c) => {
                    if c > self.max_complexity {
                        out.push(
                            QualityMetric {
                                name: "cyclomatic_complexity".to_owned(),
                                value: c as u64,
                                threshold: Some(self.max_complexity as u64),
                                severity: self.severity,
                                message: Some(
                                    breach_msg(
                                        "Cyclomatic complexity ",
                                        c as u64,
                                        " exceeds threshold of ",
                                        self.max_complexity as u64,
                                    ),
                                ),
                            },
                        );
                    }
                },
                None => {},
            }
        }
        proof {
            assert(metric_views(out@) =~~= spec_complexity_symbol(
                self.max_complexity,
                self.severity,
                symbol@,
            ));
        }
        out
    }
}

impl Default for ComplexityRule {
    /// The default complexity rule: threshold 10, warning severity.
    fn default() -> (r: ComplexityRule)
        ensures
            r.max_complexity == 10 && r.severity is Warning,
    {
        ComplexityRule::new(10, Severity::Warning)
    }
}

/// Count of the module's symbols of one kind.
pub open spec fn spec_kind_count(m: ModuleIRV, k: SymbolKind) -> int {
    m.symbols.filter(|s: SymbolV| s.kind == k).len() as int
}

/// A symbol is a type definition when it is an interface, a type alias or an
/// enum.
pub open spec fn spec_is_type_def(s: SymbolV) -> bool {
    s.kind is Interface || s.kind is Type || s.kind is Enum
}

/// Combined count of the module's type definitions: interfaces, type aliases
/// and enums together.
pub open spec fn spec_type_def_count(m: ModuleIRV) -> int {
    m.symbols.filter(|s: SymbolV| spec_is_type_def(s)).len() as int
}

/// Emits structural counts for a module: symbols by kind, with breaches when
/// the function count or the combined type-definition count exceeds its
/// maximum, and the comment and blank line counts as information.
pub struct StructureStatsRule {
    pub max_functions_per_file: usize,
    pub max_types_per_file: usize,
    pub severity: Severity,
}

/// The findings of the structure rule on a module, in order:
/// `function_count` (breaching over `max_functions`), `class_count` and
/// `interface_count` (informational), `type_definition_count` — interfaces,
/// type aliases and enums together — (breaching over `max_types`), then
/// `comment_lines` and `blank_lines` when nonzero.
pub open spec fn spec_structure_check(
    max_functions: usize,
    max_types: usize,
    sev: Severity,
    m: ModuleIRV,
) -> Seq<QualityMetricV> {
    let function_count = spec_kind_count(m, SymbolKind::Function);
    let class_count = spec_kind_count(m, SymbolKind::Class);
    let interface_count = spec_kind_count(m, SymbolKind::Interface);
    let total_types = spec_type_def_count(m);
    let head = seq![
        QualityMetricV {
            name: "function_count"@,
            value: function_count as u64,
            threshold: Some(max_functions as u64),
            severity: if function_count > max_functions {
                sev
            } else {
                Severity::Info
            },
            message: if function_count > max_functions {
                Some(
                    spec_breach_msg(
                        "File has "@,
                        function_count,
                        " functions, exceeds threshold of "@,
                        max_functions as int,
                    ),
                )
            } else {
                None
            },
        },
        QualityMetricV {
            name: "class_count"@,
            value: class_count as u64,
            threshold: None,
            severity: Severity::Info,
            message: None,
        },
        QualityMetricV {
            name: "interface_count"@,
            value: interface_count as u64,
            threshold: None,
            severity: Severity::Info,
            message: None,
        },
        QualityMetricV {
            name: "type_definition_count"@,
            value: total_types as u64,
            threshold: Some(max_types as u64),
            severity: if total_types > max_types {
                sev
            } else {
                Severity::Info
            },
            message: if total_types > max_types {
                Some(
                    spec_breach_msg(
                        "File has "@,
                        total_types,
                        " type definitions, exceeds threshold of "@,
                        max_types as int,
                    ),
                )
            } else {
                None
            },
        },
    ];
    let with_comment = if m.comment_lines > 0 {
        head.push(
            QualityMetricV {
                name: "comment_lines"@,
                value: m.comment_lines as u64,
                threshold: None,
                severity: Severity::Info,
                message: None,
            },
        )
    } else {
        head
    };
    if m.blank_lines > 0 {
        with_comment.push(
            QualityMetricV {
                name: "blank_lines"@,
                value: m.blank_lines as u64,
                threshold: None,
                severity: Severity::Info,
                message: None,
            },
        )
    } else {
        with_comment
    }
}

/// Count the module's symbols of one kind.
fn count_kind(module: &ModuleIR, k: SymbolKind) -> (r: usize)
    ensures
        r == spec_kind_count(module@, k),
{
    let ghost pred = |s: SymbolV| s.kind == k;
    let ghost syms = module@.symbols;
    let mut count: usize = 0;
    proof {
        assert(syms.take(0) =~= Seq::<SymbolV>::empty());
        reveal(Seq::filter);
    }
    let mut i: usize = 0;
    while i < module.symbols.len()
        invariant
            0 <= i <= module.symbols@.len(),
            pred == (|s: SymbolV| s.kind == k),
            syms == module@.symbols,
            syms.len() == module.symbols@.len(),
            count == syms.take(i as int).filter(pred).len(),
            count <= i,
        decreases module.symbols@.len() - i,
    {
        let sym = &module.symbols[i];
        proof {
            assert(syms[i as int] == module.symbols@[i as int]@);
            lemma_filter_snoc(syms, pred, i as int);
        }
        if sym.kind == k {
            count = count + 1;
        }
        i = i + 1;
    }
    proof {
        assert(syms.take(syms.len() as int) =~= syms);
    }
    count
}

/// Count the module's type definitions.
fn count_type_defs(module: &ModuleIR) -> (r: usize)
    ensures
        r == spec_type_def_count(module@),
{
    let ghost pred = |s: SymbolV| spec_is_type_def(s);
    let ghost syms = module@.symbols;
    let mut count: usize = 0;
    proof {
        assert(syms.take(0) =~= Seq::<SymbolV>::empty());
        reveal(Seq::filter);
    }
    let mut i: usize = 0;
    while i < module.symbols.len()
        invariant
            0 <= i <= module.symbols@.len(),
            pred == (|s: SymbolV| spec_is_type_def(s)),
            syms == module@.symbols,
            syms.len() == module.symbols@.len(),
            count == syms.take(i as int).filter(pred).len(),
            count <= i,
        decreases module.symbols@.len() - i,
    {
        let sym = &module.symbols[i];
        proof {
            assert(syms[i as int] == module.symbols@[i as int]@);
            lemma_filter_snoc(syms, pred, i as int);
        }
        let is_ty = matches!(sym.kind, SymbolKind::Interface)
            || matches!(sym.kind, SymbolKind::Type) || matches!(sym.kind, SymbolKind::Enum);
        if is_ty {
            count = count + 1;
        }
        i = i + 1;
    }
    proof {
        assert(syms.take(syms.len() as int) =~= syms);
    }
    count
}

impl StructureStatsRule {
    /// A structure rule with the given thresholds and breach severity.
    pub fn new(max_functions_per_file: usize, max_types_per_file: usize, severity: Severity) -> (r:
        StructureStatsRule)
        ensures
            r.max_functions_per_file == max_functions_per_file && r.max_types_per_file
                == max_types_per_file && r.severity == severity,
    {
        StructureStatsRule { max_functions_per_file, max_types_per_file, severity }
    }

    /// The rule's registry name.
    pub fn name(&self) -> (r: &'static str)
        ensures
            r@ == "structure_stats"@,
    {
        "structure_stats"
    }

    /// Check a module's symbol counts against the thresholds.
    pub fn check_module(&self, module: &ModuleIR) -> (r: Vec<QualityMetric>)
        ensures
            metric_views(r@) == spec_structure_check(
                self.max_functions_per_file,
                self.max_types_per_file,
                self.severity,
                module@,
            ),
    {
        let function_count = count_kind(module, SymbolKind::Function);
        let class_count = count_kind(module, SymbolKind::Class);
        let interface_count = count_kind(module, SymbolKind::Interface);
        let total_types: usize = count_type_defs(module);
        let mut out: Vec<QualityMetric> = Vec::new();
        let fn_breach = function_count > self.max_functions_per_file;
        out.push(
            QualityMetric {
                name: "function_count".to_owned(),
                value: function_count as u64,
                threshold: Some(self.max_functions_per_file as u64),
                severity: if fn_breach {
                    self.severity
                } else {
                    Severity::Info
                },
                message: if fn_breach {
                    Some(
                        breach_msg(
                            "File has ",
                            function_count as u64,
                            " functions, exceeds threshold of ",
                            self.max_functions_per_file as u64,
                        ),
                    )
                } else {
                    None
                },
            },
        );
        out.push(
            QualityMetric {
                name: "class_count".to_owned(),
                value: class_count as u64,
                threshold: None,
                severity: Severity::Info,
                message: None,
            },
        );
        out.push(
            QualityMetric {
                name: "interface_count".to_owned(),
                value: interface_count as u64,
                threshold: None,
                severity: Severity::Info,
                message: None,
            },
        );
        let ty_breach = total_types > self.max_types_per_file;
        out.push(
            QualityMetric {
                name: "type_definition_count".to_owned(),
                value: total_types as u64,
                threshold: Some(self.max_types_per_file as u64),
                severity: if ty_breach {
                    self.severity
                } else {
                    Severity::Info
                },
                message: if ty_breach {
                    Some(
                        breach_msg(
                            "File has ",
                            total_types as u64,
                            " type definitions, exceeds threshold of ",
                            self.max_types_per_file as u64,
                        ),
                    )
                } else {
                    None
                },
            },
        );
        if module.comment_lines > 0 {
            out.push(
                QualityMetric {
                    name: "comment_lines".to_owned(),
                    value: module.comment_lines as u64,
                    threshold: None,
                    severity: Severity::Info,
                    message: None,
                },
            );
        }
        if module.blank_lines > 0 {
            out.push(
                QualityMetric {
                    name: "blank_lines".to_owned(),
                    value: module.blank_lines as u64,
                    threshold: None,
                    severity: Severity::Info,
                    message: None,
                },
            );
        }
        proof {
            assert(metric_views(out@) =~~= spec_structure_check(
                self.max_functions_per_file,
                self.max_types_per_file,
                self.severity,
                module@,
            ));
        }
        out
    }

    /// The structure rule reports nothing per symbol.
    pub fn check_symbol(&self, symbol: &Symbol) -> (r: Vec<QualityMetric>)
        ensures
            r@.len() == 0,
    {
        let _ = symbol;
        Vec::new()
    }
}

impl Default for StructureStatsRule {
    /// The default structure rule: 20 functions, 30 types, warning severity.
    fn default() -> (r: StructureStatsRule)
        ensures
            r.max_functions_per_file == 20 && r.max_types_per_file == 30 && r.severity
                is Warning,
    {
        StructureStatsRule::new(20, 30, Severity::Warning)
    }
}

/// One registered quality rule: the closed set of built-in rules.
pub enum Rule {
    FileSize(FileSizeRule),
    FunctionSize(FunctionSizeRule),
    Complexity(ComplexityRule),
    Coupling(CouplingRule),
    StructureStats(StructureStatsRule),
}

/// The module findings of one rule.
pub open spec fn spec_rule_check_module(r: Rule, m: ModuleIRV) -> Seq<QualityMetricV> {
    match r {
        Rule::FileSize(x) => spec_file_size_check(x.max_loc, x.severity, m),
        Rule::FunctionSize(x) => spec_function_size_check(x.max_loc, x.severity, m),
        Rule::Complexity(x) => spec_complexity_check(x.max_complexity, x.severity, m),
        Rule::Coupling(x) => spec_coupling_check(x.max_fan_out, x.max_imports, x.severity, m),
        Rule::StructureStats(x) => spec_structure_check(
            x.max_functions_per_file,
            x.max_types_per_file,
            x.severity,
            m,
        ),
    }
}

/// The symbol findings of one rule.
pub open spec fn spec_rule_check_symbol(r: Rule, s: SymbolV) -> Seq<QualityMetricV> {
    match r {
        Rule::FileSize(_) => Seq::empty(),
        Rule::FunctionSize(x) => spec_function_size_symbol(x.max_loc, x.severity, s),
        Rule::Complexity(x) => spec_complexity_symbol(x.max_complexity, x.severity, s),
        Rule::Coupling(_) => Seq::empty(),
        Rule::StructureStats(_) => Seq::empty(),
    }
}

impl Rule {
    /// The module findings of this rule.
    pub fn check_module(&self, module: &ModuleIR) -> (r: Vec<QualityMetric>)
        ensures
            metric_views(r@) == spec_rule_check_module(*self, module@),
    {
        match self {
            Rule::FileSize(x) => x.check_module(module),
            Rule::FunctionSize(x) => x.check_module(module),
            Rule::Complexity(x) => x.check_module(module),
            Rule::Coupling(x) => x.check_module(module),
            Rule::StructureStats(x) => x.check_module(module),
        }
    }

    /// The symbol findings of this rule.
    pub fn check_symbol(&self, symbol: &Symbol) -> (r: Vec<QualityMetric>)
        ensures
            metric_views(r@) == spec_rule_check_symbol(*self, symbol@),
    {
        let out = match self {
            Rule::FileSize(x) => x.check_symbol(symbol),
            Rule::FunctionSize(x) => x.check_symbol(symbol),
            Rule::Complexity(x) => x.check_symbol(symbol),
            Rule::Coupling(x) => x.check_symbol(symbol),
            Rule::StructureStats(x) => x.check_symbol(symbol),
        };
        proof {
            assert(metric_views(out@) =~~= spec_rule_check_symbol(*self, symbol@));
        }
        out
    }
}

/// The concatenated module findings of a sequence of rules, in registration
/// order.
pub open spec fn spec_registry_check_module(rules: Seq<Rule>, m: ModuleIRV) -> Seq<
    QualityMetricV,
>
    decreases rules.len(),
{
    if rules.len() == 0 {
        Seq::empty()
    } else {
        spec_rule_check_module(rules[0], m) + spec_registry_check_module(rules.skip(1), m)
    }
}

/// The concatenated symbol findings of a sequence of rules, in registration
/// order.
pub open spec fn spec_registry_check_symbol(rules: Seq<Rule>, s: SymbolV) -> Seq<QualityMetricV>
    decreases rules.len(),
{
    if rules.len() == 0 {
        Seq::empty()
    } else {
        spec_rule_check_symbol(rules[0], s) + spec_registry_check_symbol(rules.skip(1), s)
    }
}

proof fn lemma_registry_module_snoc(rules: Seq<Rule>, i: int, m: ModuleIRV)
    requires
        0 <= i < rules.len(),
    ensures
        spec_registry_check_module(rules.take(i + 1), m) == spec_registry_check_module(
            rules.take(i),
            m,
        ) + spec_rule_check_module(rules[i], m),
    decreases i,
{
    if i == 0 {
        assert(rules.take(1)[0] == rules[0]);
        assert(rules.take(1).skip(1) =~= Seq::<Rule>::empty());
        assert(rules.take(0) =~= Seq::<Rule>::empty());
        assert(spec_registry_check_module(rules.take(1), m) =~~= spec_registry_check_module(
            rules.take(0),
            m,
        ) + spec_rule_check_module(rules[0], m));
    } else {
        lemma_registry_module_snoc(rules.skip(1), i - 1, m);
        assert(rules.take(i + 1)[0] == rules[0]);
        assert(rules.take(i + 1).skip(1) =~= rules.skip(1).take(i));
        assert(rules.take(i)[0] == rules[0]);
        assert(rules.take(i).skip(1) =~= rules.skip(1).take(i - 1));
        assert(spec_registry_check_module(rules.take(i + 1), m)
            =~~= spec_registry_check_module(rules.take(i), m) + spec_rule_check_module(
            rules[i],
            m,
        ));
    }
}

proof fn lemma_registry_symbol_snoc(rules: Seq<Rule>, i: int, s: SymbolV)
    requires
        0 <= i < rules.len(),
    ensures
        spec_registry_check_symbol(rules.take(i + 1), s) == spec_registry_check_symbol(
            rules.take(i),
            s,
        ) + spec_rule_check_symbol(rules[i], s),
    decreases i,
{
    if i == 0 {
        assert(rules.take(1)[0] == rules[0]);
        assert(rules.take(1).skip(1) =~= Seq::<Rule>::empty());
        assert(rules.take(0) =~= Seq::<Rule>::empty());
        assert(spec_registry_check_symbol(rules.take(1), s) =~~= spec_registry_check_symbol(
            rules.take(0),
            s,
        ) + spec_rule_check_symbol(rules[0], s));
    } else {
        lemma_registry_symbol_snoc(rules.skip(1), i - 1, s);
        assert(rules.take(i + 1)[0] == rules[0]);
        assert(rules.take(i + 1).skip(1) =~= rules.skip(1).take(i));
        assert(rules.take(i)[0] == rules[0]);
        assert(rules.take(i).skip(1) =~= rules.skip(1).take(i - 1));
        assert(spec_registry_check_symbol(rules.take(i + 1), s)
            =~~= spec_registry_check_symbol(rules.take(i), s) + spec_rule_check_symbol(
            rules[i],
            s,
        ));
    }
}

/// An ordered collection of independent quality rules. Checking a module or
/// a symbol concatenates every registered rule's findings in registration
/// order; no rule sees another's output.
pub struct RuleRegistry {
    pub rules: Vec<Rule>,
}

impl RuleRegistry {
    /// An empty registry.
    pub fn new() -> (r: RuleRegistry)
        ensures
            r.rules@.len() == 0,
    {
        RuleRegistry { rules: Vec::new() }
    }

    /// Append one rule to the registry.
    pub fn register(&mut self, rule: Rule)
        ensures
            final(self).rules@ == old(self).rules@.push(rule),
    {
        self.rules.push(rule);
    }

    /// The concatenated module findings of every registered rule.
    pub fn check_module(&self, module: &ModuleIR) -> (r: Vec<QualityMetric>)
        ensures
            metric_views(r@) == spec_registry_check_module(self.rules@, module@),
    {
        let mut out: Vec<QualityMetric> = Vec::new();
        proof {
            assert(self.rules@.take(0) =~= Seq::<Rule>::empty());
            assert(metric_views(out@) =~~= spec_registry_check_module(
                self.rules@.take(0),
                module@,
            ));
        }
        let mut i: usize = 0;
        while i < self.rules.len()
            invariant
                0 <= i <= self.rules@.len(),
                metric_views(out@) == spec_registry_check_module(
                    self.rules@.take(i as int),
                    module@,
                ),
            decreases self.rules@.len() - i,
        {
            let mut found = self.rules[i].check_module(module);
            let ghost before = out@;
            let ghost found_view = found@;
            out.append(&mut found);
            proof {
                assert(out@ == before + found_view);
                lemma_registry_module_snoc(self.rules@, i as int, module@);
                assert(metric_views(out@) =~~= metric_views(before) + metric_views(found_view));
                assert(metric_views(out@) =~~= spec_registry_check_module(
                    self.rules@.take(i as int + 1),
                    module@,
                ));
            }
            i = i + 1;
        }
        proof {
            assert(self.rules@.take(self.rules@.len() as int) =~= self.rules@);
        }
        out
    }

    /// The concatenated symbol findings of every registered rule.
    pub fn check_symbol(&self, symbol: &Symbol) -> (r: Vec<QualityMetric>)
        ensures
            metric_views(r@) == spec_registry_check_symbol(self.rules@, symbol@),
    {
        let mut out: Vec<QualityMetric> = Vec::new();
        proof {
            assert(self.rules@.take(0) =~= Seq::<Rule>::empty());
            assert(metric_views(out@) =~~= spec_registry_check_symbol(
                self.rules@.take(0),
                symbol@,
            ));
        }
        let mut i: usize = 0;
        while i < self.rules.len()
            invariant
                0 <= i <= self.rules@.len(),
                metric_views(out@) == spec_registry_check_symbol(
                    self.rules@.take(i as int),
                    symbol@,
                ),
            decreases self.rules@.len() - i,
        {
            let mut found = self.rules[i].check_symbol(symbol);
            let ghost before = out@;
            let ghost found_view = found@;
            out.append(&mut found);
            proof {
                assert(out@ == before + found_view);
                lemma_registry_symbol_snoc(self.rules@, i as int, symbol@);
                assert(metric_views(out@) =~~= metric_views(before) + metric_views(found_view));
                assert(metric_views(out@) =~~= spec_registry_check_symbol(
                    self.rules@.take(i as int + 1),
                    symbol@,
                ));
            }
            i = i + 1;
        }
        proof {
            assert(self.rules@.take(self.rules@.len() as int) =~= self.rules@);
        }
        out
    }
}

impl Default for RuleRegistry {
    /// An empty registry.
    fn default() -> (r: RuleRegistry)
        ensures
            r.rules@.len() == 0,
    {
        RuleRegistry::new()
    }
}

/// Whether a list of findings holds a threshold breach under the given name.
pub open spec fn has_breach(findings: Seq<QualityMetricV>, name: Seq<char>) -> bool {
    exists|i: int|
        0 <= i < findings.len() && (#[trigger] findings[i]).name == name && !(
        findings[i].severity is Info)
}

/// A pointwise stronger predicate never keeps more elements.
proof fn lemma_filter_stronger_len<A>(s: Seq<A>, p1: spec_fn(A) -> bool, p2: spec_fn(A) -> bool)
    requires
        forall|x: A| #[trigger] p2(x) ==> #[trigger] p1(x),
    ensures
        s.filter(p2).len() <= s.filter(p1).len(),
    decreases s.len(),
{
    reveal(Seq::filter);
    if s.len() > 0 {
        lemma_filter_stronger_len(s.drop_last(), p1, p2);
    }
}

/// Raising the file-size threshold can only remove breaches, never add one:
/// every breach the rule reports under the larger threshold it also reports
/// under the smaller.
pub proof fn lemma_file_size_threshold_monotone(m: ModuleIRV, sev: Severity, t1: u32, t2: u32)
    requires
        t1 <= t2,
    ensures
        forall|name: Seq<char>|
            has_breach(spec_file_size_check(t2, sev, m), name) ==> has_breach(
                spec_file_size_check(t1, sev, m),
                name,
            ),
{
    let f1 = spec_file_size_check(t1, sev, m);
    let f2 = spec_file_size_check(t2, sev, m);
    assert forall|name: Seq<char>| has_breach(f2, name) implies has_breach(f1, name) by {
        let i = choose|i: int|
            0 <= i < f2.len() && (#[trigger] f2[i]).name == name && !(f2[i].severity is Info);
        assert(m.loc > t2 && i == 1);
        assert(f1[1].name == name && !(f1[1].severity is Info));
    }
}

/// Raising the function-size threshold can only remove breaches, never add
/// one, both in the module aggregate and per symbol.
pub proof fn lemma_function_size_threshold_monotone(
    m: ModuleIRV,
    s: SymbolV,
    sev: Severity,
    t1: u32,
    t2: u32,
)
    requires
        t1 <= t2,
    ensures
        forall|name: Seq<char>|
            has_breach(spec_function_size_check(t2, sev, m), name) ==> has_breach(
                spec_function_size_check(t1, sev, m),
                name,
            ),
        forall|name: Seq<char>|
            has_breach(spec_function_size_symbol(t2, sev, s), name) ==> has_breach(
                spec_function_size_symbol(t1, sev, s),
                name,
            ),
{
    lemma_filter_stronger_len(m.symbols, spec_is_large_fn(t1), spec_is_large_fn(t2));
    let f1 = spec_function_size_check(t1, sev, m);
    let f2 = spec_function_size_check(t2, sev, m);
    assert forall|name: Seq<char>| has_breach(f2, name) implies has_breach(f1, name) by {
        let i = choose|i: int|
            0 <= i < f2.len() && (#[trigger] f2[i]).name == name && !(f2[i].severity is Info);
        assert(m.symbols.filter(spec_is_large_fn(t2)).len() > 0);
        assert(f1[0].name == name && !(f1[0].severity is Info));
    }
    let g1 = spec_function_size_symbol(t1, sev, s);
    let g2 = spec_function_size_symbol(t2, sev, s);
    assert forall|name: Seq<char>| has_breach(g2, name) implies has_breach(g1, name) by {
        let i = choose|i: int|
            0 <= i < g2.len() && (#[trigger] g2[i]).name == name && !(g2[i].severity is Info);
        assert(s.kind is Function && s.loc > t2);
        assert(g1[0].name == name && !(g1[0].severity is Info));
    }
}

/// Raising the complexity threshold can only remove breaches, never add one,
/// both in the module aggregate and per symbol.
pub proof fn lemma_complexity_threshold_monotone(
    m: ModuleIRV,
    s: SymbolV,
    sev: Severity,
    t1: u32,
    t2: u32,
)
    requires
        t1 <= t2,
    ensures
        forall|name: Seq<char>|
            has_breach(spec_complexity_check(t2, sev, m), name) ==> has_breach(
                spec_complexity_check(t1, sev, m),
                name,
            ),
        forall|name: Seq<char>|
            has_breach(spec_complexity_symbol(t2, sev, s), name) ==> has_breach(
                spec_complexity_symbol(t1, sev, s),
                name,
            ),
{
    lemma_filter_stronger_len(m.symbols, spec_is_complex_fn(t1), spec_is_complex_fn(t2));
    let f1 = spec_complexity_check(t1, sev, m);
    let f2 = spec_complexity_check(t2, sev, m);
    assert forall|name: Seq<char>| has_breach(f2, name) implies has_breach(f1, name) by {
        let i = choose|i: int|
            0 <= i < f2.len() && (#[trigger] f2[i]).name == name && !(f2[i].severity is Info);
        assert(m.symbols.filter(spec_is_complex_fn(t2)).len() > 0);
        assert(f1[0].name == name && !(f1[0].severity is Info));
    }
    let g1 = spec_complexity_symbol(t1, sev, s);
    let g2 = spec_complexity_symbol(t2, sev, s);
    assert forall|name: Seq<char>| has_breach(g2, name) implies has_breach(g1, name) by {
        let i = choose|i: int|
            0 <= i < g2.len() && (#[trigger] g2[i]).name == name && !(g2[i].severity is Info);
        assert(s.kind is Function && spec_complexity_of(s) > t2);
        assert(g1[0].name == name && !(g1[0].severity is Info));
    }
}

/// Raising either coupling threshold can only remove breaches, never add
/// one; the fan-in finding never breaches at all.
pub proof fn lemma_coupling_threshold_monotone(
    m: ModuleIRV,
    sev: Severity,
    fo1: usize,
    fo2: usize,
    im1: usize,
    im2: usize,
)
    requires
        fo1 <= fo2,
        im1 <= im2,
    ensures
        forall|name: Seq<char>|
            has_breach(spec_coupling_check(fo2, im2, sev, m), name) ==> has_breach(
                spec_coupling_check(fo1, im1, sev, m),
                name,
            ),
{
    let f1 = spec_coupling_check(fo1, im1, sev, m);
    let f2 = spec_coupling_check(fo2, im2, sev, m);
    assert forall|name: Seq<char>| has_breach(f2, name) implies has_breach(f1, name) by {
        let i = choose|i: int|
            0 <= i < f2.len() && (#[trigger] f2[i]).name == name && !(f2[i].severity is Info);
        if i == 0 {
            assert(f1[0].name == name && !(f1[0].severity is Info));
        } else {
            assert(i == 2);
            assert(f1[2].name == name && !(f1[2].severity is Info));
        }
    }
}

/// Raising either structure threshold can only remove breaches, never add
/// one; the purely informational counts never breach at all.
pub proof fn lemma_structure_threshold_monotone(
    m: ModuleIRV,
    sev: Severity,
    fn1: usize,
    fn2: usize,
    ty1: usize,
    ty2: usize,
)
    requires
        fn1 <= fn2,
        ty1 <= ty2,
    ensures
        forall|name: Seq<char>|
            has_breach(spec_structure_check(fn2, ty2, sev, m), name) ==> has_breach(
                spec_structure_check(fn1, ty1, sev, m),
                name,
            ),
{
    let f1 = spec_structure_check(fn1, ty1, sev, m);
    let f2 = spec_structure_check(fn2, ty2, sev, m);
    assert forall|name: Seq<char>| has_breach(f2, name) implies has_breach(f1, name) by {
        let i = choose|i: int|
            0 <= i < f2.len() && (#[trigger] f2[i]).name == name && !(f2[i].severity is Info);
        if i == 0 {
            assert(f1[0].name == name && !(f1[0].severity is Info));
        } else {
            assert(i == 3);
            assert(f1[3].name == name && !(f1[3].severity is Info));
        }
    }
}

} // verus!
