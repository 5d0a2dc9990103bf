use vstd::prelude::*;
use crate::discovery::{detect_language, spec_detect_language};
use crate::lines::{count_lines, spec_classify, spec_lines};
use crate::syntax::{
    extract_imports, extract_symbols, spec_imports, spec_symbols, SyntaxNode,
};
use crate::types::{DepEdge, ModuleIR, Symbol};

verus! {

#[verifier::external_type_specification]
#[verifier::external_body]
pub struct ExLanguage(tree_sitter::Language);

#[verifier::external_type_specification]
#[verifier::external_body]
pub struct ExParser(tree_sitter::Parser);

#[verifier::external_type_specification]
#[verifier::external_body]
pub struct ExTree(tree_sitter::Tree);

#[verifier::external_type_specification]
#[verifier::external_body]
pub struct ExNode<'tree>(tree_sitter::Node<'tree>);

/// Relies on tree_sitter_typescript::LANGUAGE_TYPESCRIPT: the TypeScript grammar.
#[verifier::external_body]
fn language_typescript() -> tree_sitter::Language {
    tree_sitter_typescript::LANGUAGE_TYPESCRIPT.into()
}

/// Relies on tree_sitter_typescript::LANGUAGE_TSX: the TSX grammar.
#[verifier::external_body]
fn language_tsx() -> tree_sitter::Language {
    tree_sitter_typescript::LANGUAGE_TSX.into()
}

/// Relies on tree_sitter_javascript::LANGUAGE: the JavaScript grammar.
#[verifier::external_body]
fn language_javascript() -> tree_sitter::Language {
    tree_sitter_javascript::LANGUAGE.into()
}

/// Relies on tree_sitter::Parser::new: a fresh parser.
#[verifier::external_body]
fn parser_new() -> tree_sitter::Parser {
    tree_sitter::Parser::new()
}

/// Relies on tree_sitter::Parser::set_language: loads a grammar into the
/// parser, failing on a grammar version mismatch.
#[verifier::external_body]
fn parser_set_language(p: &mut tree_sitter::Parser, l: &tree_sitter::Language) -> bool {
    p.set_language(l).is_ok()
}

/// Relies on tree_sitter::Parser::parse: parses the source into a concrete
/// syntax tree, or gives nothing when parsing was cancelled or no grammar is
/// loaded.
#[verifier::external_body]
fn parser_parse(p: &mut tree_sitter::Parser, source: &str) -> Option<tree_sitter::Tree> {
    p.parse(source, None)
}

/// Relies on tree_sitter::Tree::root_node: the root of the parse tree.
#[verifier::external_body]
fn tree_root<'t>(t: &'t tree_sitter::Tree) -> tree_sitter::Node<'t> {
    t.root_node()
}

/// Relies on tree_sitter::Node::kind: the grammar kind of the node.
#[verifier::external_body]
fn node_kind(n: &tree_sitter::Node<'_>) -> String {
    n.kind().to_string()
}

/// Relies on tree_sitter::Node::child_count: how many children the node
/// has; the count is a 32-bit value.
#[verifier::external_body]
fn node_child_count(n: &tree_sitter::Node<'_>) -> (r: usize)
    ensures
        r <= u32::MAX,
{
    n.child_count() as usize
}

/// Relies on tree_sitter::Node::child: the i-th child, in tree order. The
/// index is narrowed to the grammar's 32-bit width, so larger values are
/// not admitted.
#[verifier::external_body]
fn node_child<'t>(n: &tree_sitter::Node<'t>, i: usize) -> (r: Option<tree_sitter::Node<'t>>)
    requires
        i <= u32::MAX,
{
    n.child(i as u32)
}

/// Relies on tree_sitter::Node::child_by_field_name: the child under the
/// given grammar field, if any.
#[verifier::external_body]
fn node_field<'t>(n: &tree_sitter::Node<'t>, field: &str) -> Option<tree_sitter::Node<'t>> {
    n.child_by_field_name(field)
}

/// Relies on tree_sitter::Node::start_position: the zero-based row where the
/// node starts.
#[verifier::external_body]
fn node_start_row(n: &tree_sitter::Node<'_>) -> usize {
    n.start_position().row
}

/// Relies on tree_sitter::Node::end_position: the zero-based row where the
/// node ends.
#[verifier::external_body]
fn node_end_row(n: &tree_sitter::Node<'_>) -> usize {
    n.end_position().row
}

/// Relies on tree_sitter::Node::utf8_text: the source text the node spans,
/// or nothing when the handed text does not cover the node's byte range.
#[verifier::external_body]
fn node_text(n: &tree_sitter::Node<'_>, source: &str) -> Option<String> {
    let bytes = source.as_bytes();
    if n.start_byte() > n.end_byte() || n.end_byte() > bytes.len() {
        return None;
    }
    n.utf8_text(bytes).ok().map(|t| t.to_string())
}

/// Relies on tree_sitter::Node::id: an identifier unique per node within its
/// tree, with no meaning beyond equality.
#[verifier::external_body]
fn node_id(n: &tree_sitter::Node<'_>) -> usize {
    n.id()
}

fn row_to_u32(r: usize) -> (out: u32)
    ensures
        r <= u32::MAX ==> out == r,
{
    if r > u32::MAX as usize {
        u32::MAX
    } else {
        r as u32
    }
}

/// Copy the parse tree below `n` into the library's own node representation,
/// recording for each node its kind, row span, `name` and `source` field
/// texts, and which child carries the `body` field. `fuel` bounds the
/// recursion depth; a deeper tree makes the copy fail.
fn convert_node(n: &tree_sitter::Node<'_>, source: &str, fuel: u64) -> (r: Option<SyntaxNode>)
    decreases fuel,
{
    if fuel == 0 {
        return None;
    }
    let kind = node_kind(n);
    let start_row = row_to_u32(node_start_row(n));
    let end_row = row_to_u32(node_end_row(n));
    let name_text = match node_field(n, "name") {
        Some(nn) => node_text(&nn, source),
        None => None,
    };
    let source_text = match node_field(n, "source") {
        Some(sn) => node_text(&sn, source),
        None => None,
    };
    let body_id = match node_field(n, "body") {
        Some(bn) => Some(node_id(&bn)),
        None => None,
    };
    let count = node_child_count(n);
    let mut children: Vec<SyntaxNode> = Vec::new();
    let mut body_index: Option<usize> = None;
    let mut i: usize = 0;
    while i < count
        invariant
            fuel >= 1,
            count <= u32::MAX,
        decreases count - i,
    {
        match node_child(n, i) {
            Some(c) => {
                let is_body = match body_id {
                    Some(bid) => node_id(&c) == bid,
                    None => false,
                };
                match convert_node(&c, source, fuel - 1) {
                    Some(sn) => {
                        if is_body {
                            body_index = Some(children.len());
                        }
                        children.push(sn);
                    },
                    None => {
                        return None;
                    },
                }
            },
            None => {},
        }
        i = i + 1;
    }
    Some(
        SyntaxNode {
            kind,
            start_row,
            end_row,
            name_text,
            source_text,
            body_index,
            children,
        },
    )
}

/// Why a file could not be analyzed.
#[derive(Clone, Copy, PartialEq, Eq, Structural, Debug)]
pub enum ParseError {
    /// The grammar parser produced no tree for the file.
    Grammar,
    /// The grammar could not be loaded into the parser.
    Language,
    /// The file is too large to analyze.
    TooLarge,
}

impl ParseError {
    /// A short description of the failure.
    pub fn label(&self) -> (r: &'static str)
        ensures
            r@.len() > 0,
    {
        proof {
            reveal_strlit("failed to parse file");
            reveal_strlit("failed to load grammar");
            reveal_strlit("file too large to analyze");
        }
        match self {
            ParseError::Grammar => "failed to parse file",
            ParseError::Language => "failed to load grammar",
            ParseError::TooLarge => "file too large to analyze",
        }
    }
}

/// Parses TypeScript, TSX or JavaScript source into the module intermediate
/// representation, using the matching tree-sitter grammar.
pub struct TypeScriptAdapter {
    language: tree_sitter::Language,
}

impl TypeScriptAdapter {
    /// An adapter over the TypeScript grammar.
    pub fn new_typescript() -> TypeScriptAdapter {
        TypeScriptAdapter { language: language_typescript() }
    }

    /// An adapter over the TSX grammar.
    pub fn new_tsx() -> TypeScriptAdapter {
        TypeScriptAdapter { language: language_tsx() }
    }

    /// An adapter over the JavaScript grammar.
    pub fn new_javascript() -> TypeScriptAdapter {
        TypeScriptAdapter { language: language_javascript() }
    }

    /// The file extensions this adapter accepts.
    pub fn match_ext(&self) -> (r: Vec<String>)
        ensures
            r@.len() == 3,
            r@[0]@ == "ts"@,
            r@[1]@ == "tsx"@,
            r@[2]@ == "js"@,
    {
        let mut v: Vec<String> = Vec::new();
        v.push("ts".to_owned());
        v.push("tsx".to_owned());
        v.push("js".to_owned());
        v
    }

    /// Parse one file into its module record.
    ///
    /// A source too large for the 32-bit line counters is rejected up front,
    /// and only then; the remaining failures are the grammar's (no tree, or
    /// a grammar that would not load). Whatever tree the grammar produced:
    /// the module's three line counters are exactly the line classification
    /// of the source and cover every physical line; the symbols and edges
    /// are the extraction of one syntax tree; the language is derived from
    /// the path; and rule findings and incoming edges start empty.
    pub fn parse(&self, path: &str, source: &str) -> (r: Result<ModuleIR, ParseError>)
        ensures
            r == Err::<ModuleIR, ParseError>(ParseError::TooLarge) <==> source@.len()
                > u32::MAX,
            r matches Err(e) ==> (e is TooLarge || e is Language || e is Grammar),
            r matches Ok(m) ==> {
                let counts = spec_classify(spec_lines(source@), false);
                &&& m@.path == path@
                &&& m@.language == spec_detect_language(path@)
                &&& m@.loc == counts.0
                &&& m@.comment_lines == counts.1
                &&& m@.blank_lines == counts.2
                &&& m@.loc + m@.comment_lines + m@.blank_lines == spec_lines(source@).len()
                &&& exists|t: SyntaxNode|
                    m@.symbols == spec_symbols(t) && m@.outgoing == spec_imports(t)
                &&& forall|i: int| 0 <= i < m@.symbols.len() ==> (#[trigger] m@.symbols[i]).loc >= 1
                &&& forall|i: int|
                    0 <= i < m@.symbols.len() ==> (!((#[trigger] m@.symbols[i]).kind is Function)
                        ==> m@.symbols[i].cyclomatic_complexity is None)
                &&& forall|i: int|
                    0 <= i < m@.symbols.len() ==> ((#[trigger] m@.symbols[i]).kind is Function
                        ==> m@.symbols[i].cyclomatic_complexity is Some)
                &&& forall|i: int|
                    0 <= i < m@.symbols.len() ==> (#[trigger] m@.symbols[i]).metrics.len() == 0
                &&& m@.metrics.len() == 0
                &&& m@.incoming.len() == 0
            },
    {
        let n = source.unicode_len();
        if n > u32::MAX as usize {
            return Err(ParseError::TooLarge);
        }
        let mut parser = parser_new();
        if !parser_set_language(&mut parser, &self.language) {
            return Err(ParseError::Language);
        }
        let tree = match parser_parse(&mut parser, source) {
            Some(t) => t,
            None => {
                return Err(ParseError::Grammar);
            },
        };
        let root = tree_root(&tree);
        let fuel: u64 = match (source.unicode_len() as u64).checked_add(64) {
            Some(f) => f,
            None => u64::MAX,
        };
        let converted = match convert_node(&root, source, fuel) {
            Some(c) => c,
            None => {
                return Err(ParseError::Grammar);
            },
        };
        let stats = count_lines(source);
        let symbols: Vec<Symbol> = extract_symbols(&converted);
        let outgoing: Vec<DepEdge> = extract_imports(&converted);
        let language = detect_language(path);
        let module = ModuleIR {
            path: path.to_owned(),
            language,
            loc: stats.code,
            comment_lines: stats.comment,
            blank_lines: stats.blank,
            symbols,
            metrics: Vec::new(),
            outgoing,
            incoming: Vec::new(),
        };
        proof {
            assert(module@.symbols =~~= spec_symbols(converted));
            assert(module@.outgoing =~~= spec_imports(converted));
            assert(module@.metrics =~~= Seq::<crate::types::QualityMetricV>::empty());
            assert(module@.incoming =~~= Seq::<crate::types::DepEdgeV>::empty());
        }
        Ok(module)
    }
}

} // verus!
