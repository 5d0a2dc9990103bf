use vstd::prelude::*;

verus! {

/// The kind of a declared code entity found in a source file.
#[derive(Clone, Copy, PartialEq, Eq, Structural, Debug)]
pub enum SymbolKind {
    Class,
    Function,
    Const,
    Variable,
    Interface,
    Type,
    Enum,
}

impl SymbolKind {
    /// Lowercase label used in rendered output and in the interchange format.
    pub fn label(&self) -> (r: &'static str)
        ensures
            r@ == spec_kind_label(*self),
    {
        match self {
            SymbolKind::Class => "class",
            SymbolKind::Function => "function",
            SymbolKind::Const => "const",
            SymbolKind::Variable => "variable",
            SymbolKind::Interface => "interface",
            SymbolKind::Type => "type",
            SymbolKind::Enum => "enum",
        }
    }
}

pub open spec fn spec_kind_label(k: SymbolKind) -> Seq<char> {
    match k {
        SymbolKind::Class => "class"@,
        SymbolKind::Function => "function"@,
        SymbolKind::Const => "const"@,
        SymbolKind::Variable => "variable"@,
        SymbolKind::Interface => "interface"@,
        SymbolKind::Type => "type"@,
        SymbolKind::Enum => "enum"@,
    }
}

/// Severity of a quality finding. `Info` findings are informational only;
/// `Warning` and `Error` mark threshold breaches.
#[derive(Clone, Copy, PartialEq, Eq, Structural, Debug)]
pub enum Severity {
    Info,
    Warning,
    Error,
}

/// The relation an inter-module dependency edge represents.
#[derive(Clone, Copy, PartialEq, Eq, Structural, Debug)]
pub enum DepKind {
    Import,
    Use,
    Inherit,
    Aggregate,
    Compose,
}

/// One quality finding emitted by a rule. `value` and `threshold` are integer
/// measurements (line counts, symbol counts, decision points).
#[derive(Clone, Debug)]
pub struct QualityMetric {
    pub name: String,
    pub value: u64,
    pub threshold: Option<u64>,
    pub severity: Severity,
    pub message: Option<String>,
}

/// Mathematical value of a `QualityMetric`.
#[verifier::ext_equal]
pub struct QualityMetricV {
    pub name: Seq<char>,
    pub value: u64,
    pub threshold: Option<u64>,
    pub severity: Severity,
    pub message: Option<Seq<char>>,
}

impl View for QualityMetric {
    type V = QualityMetricV;

    open spec fn view(&self) -> QualityMetricV {
        QualityMetricV {
            name: self.name@,
            value: self.value,
            threshold: self.threshold,
            severity: self.severity,
            message: match self.message {
                Some(ref m) => Some(m@),
                None => None,
            },
        }
    }
}

/// A declared code entity with its line span. `cyclomatic_complexity` is
/// present exactly for `Function` symbols.
#[derive(Clone, Debug)]
pub struct Symbol {
    pub kind: SymbolKind,
    pub name: String,
    pub loc: u32,
    pub cyclomatic_complexity: Option<u32>,
    pub metrics: Vec<QualityMetric>,
}

/// Mathematical value of a `Symbol`.
#[verifier::ext_equal]
pub struct SymbolV {
    pub kind: SymbolKind,
    pub name: Seq<char>,
    pub loc: u32,
    pub cyclomatic_complexity: Option<u32>,
    pub metrics: Seq<QualityMetricV>,
}

impl View for Symbol {
    type V = SymbolV;

    open spec fn view(&self) -> SymbolV {
        SymbolV {
            kind: self.kind,
            name: self.name@,
            loc: self.loc,
            cyclomatic_complexity: self.cyclomatic_complexity,
            metrics: Seq::new(self.metrics@.len(), |i: int| self.metrics@[i]@),
        }
    }
}

/// A directed dependency relation between two modules. Endpoints are optional
/// because an edge can be recorded before the opposite side is resolved.
/// `strength_milli` is the relation confidence in thousandths (0..=1000).
#[derive(Clone, Debug)]
pub struct DepEdge {
    pub source: Option<String>,
    pub target: Option<String>,
    pub relation: DepKind,
    pub strength_milli: u32,
    pub files: Option<u32>,
}

/// Mathematical value of a `DepEdge`.
#[verifier::ext_equal]
pub struct DepEdgeV {
    pub source: Option<Seq<char>>,
    pub target: Option<Seq<char>>,
    pub relation: DepKind,
    pub strength_milli: u32,
    pub files: Option<u32>,
}

impl View for DepEdge {
    type V = DepEdgeV;

    open spec fn view(&self) -> DepEdgeV {
        DepEdgeV {
            source: match self.source {
                Some(ref s) => Some(s@),
                None => None,
            },
            target: match self.target {
                Some(ref t) => Some(t@),
                None => None,
            },
            relation: self.relation,
            strength_milli: self.strength_milli,
            files: self.files,
        }
    }
}

/// The normalized intermediate representation of one analyzed file.
/// `loc`, `comment_lines` and `blank_lines` are mutually exclusive counts
/// that together cover every physical line of the file.
#[derive(Clone, Debug)]
pub struct ModuleIR {
    pub path: String,
    pub language: Option<String>,
    pub loc: u32,
    pub comment_lines: u32,
    pub blank_lines: u32,
    pub symbols: Vec<Symbol>,
    pub metrics: Vec<QualityMetric>,
    pub outgoing: Vec<DepEdge>,
    pub incoming: Vec<DepEdge>,
}

/// Mathematical value of a `ModuleIR`.
#[verifier::ext_equal]
pub struct ModuleIRV {
    pub path: Seq<char>,
    pub language: Option<Seq<char>>,
    pub loc: u32,
    pub comment_lines: u32,
    pub blank_lines: u32,
    pub symbols: Seq<SymbolV>,
    pub metrics: Seq<QualityMetricV>,
    pub outgoing: Seq<DepEdgeV>,
    pub incoming: Seq<DepEdgeV>,
}

impl View for ModuleIR {
    type V = ModuleIRV;

    open spec fn view(&self) -> ModuleIRV {
        ModuleIRV {
            path: self.path@,
            language: match self.language {
                Some(ref l) => Some(l@),
                None => None,
            },
            loc: self.loc,
            comment_lines: self.comment_lines,
            blank_lines: self.blank_lines,
            symbols: Seq::new(self.symbols@.len(), |i: int| self.symbols@[i]@),
            metrics: Seq::new(self.metrics@.len(), |i: int| self.metrics@[i]@),
            outgoing: Seq::new(self.outgoing@.len(), |i: int| self.outgoing@[i]@),
            incoming: Seq::new(self.incoming@.len(), |i: int| self.incoming@[i]@),
        }
    }
}

/// Fan-in / fan-out counts for one module, as answered by the dependency graph.
#[derive(Clone, Debug)]
pub struct FileMetrics {
    pub fan_in: u32,
    pub fan_out: u32,
    pub risk_hotspots: Vec<String>,
}

/// Aggregate counts over one analyzed directory.
#[derive(Clone, Debug)]
pub struct DirectoryMetrics {
    pub files: u32,
    pub loc: u32,
}

} // verus!
