use vstd::prelude::*;
use crate::types::{DepEdgeV, DepKind, Symbol, SymbolKind, SymbolV};
use crate::text::str_eq;

verus! {

/// One node of the concrete syntax tree, reduced to the facts the extractor
/// reads: the grammar kind, the inclusive row span, the text of the `name`
/// and `source` field children when present, the index of the `body` field
/// child among `children`, and the child nodes in tree order.
pub struct SyntaxNode {
    pub kind: String,
    pub start_row: u32,
    pub end_row: u32,
    pub name_text: Option<String>,
    pub source_text: Option<String>,
    pub body_index: Option<usize>,
    pub children: Vec<SyntaxNode>,
}

/// The fixed dispatch table from grammar node kinds to symbol kinds: the five
/// declaration forms the extractor records.
pub open spec fn spec_symbol_kind(kind: Seq<char>) -> Option<SymbolKind> {
    if kind == "class_declaration"@ {
        Some(SymbolKind::Class)
    } else if kind == "function_declaration"@ {
        Some(SymbolKind::Function)
    } else if kind == "interface_declaration"@ {
        Some(SymbolKind::Interface)
    } else if kind == "type_alias_declaration"@ {
        Some(SymbolKind::Type)
    } else if kind == "enum_declaration"@ {
        Some(SymbolKind::Enum)
    } else {
        None
    }
}

/// Look up a grammar node kind in the dispatch table.
pub fn symbol_kind_for_node(kind: &str) -> (r: Option<SymbolKind>)
    ensures
        r == spec_symbol_kind(kind@),
{
    if str_eq(kind, "class_declaration") {
        Some(SymbolKind::Class)
    } else if str_eq(kind, "function_declaration") {
        Some(SymbolKind::Function)
    } else if str_eq(kind, "interface_declaration") {
        Some(SymbolKind::Interface)
    } else if str_eq(kind, "type_alias_declaration") {
        Some(SymbolKind::Type)
    } else if str_eq(kind, "enum_declaration") {
        Some(SymbolKind::Enum)
    } else {
        None
    }
}

/// Inclusive line span of a node, never below one line; row indices are
/// zero-based and the span saturates at the counter's width.
pub open spec fn spec_loc(start_row: u32, end_row: u32) -> u32 {
    if end_row >= start_row {
        if end_row - start_row + 1 <= u32::MAX {
            (end_row - start_row + 1) as u32
        } else {
            u32::MAX
        }
    } else {
        1u32
    }
}

fn loc_of(start_row: u32, end_row: u32) -> (r: u32)
    ensures
        r == spec_loc(start_row, end_row),
        r >= 1,
{
    if end_row >= start_row {
        let d = end_row - start_row;
        if d == u32::MAX {
            u32::MAX
        } else {
            d + 1
        }
    } else {
        1
    }
}

/// Grammar kinds that count as one decision point each: conditionals, loop
/// constructs, non-default switch cases, logical and/or operators, and catch
/// clauses.
pub open spec fn spec_is_decision(kind: Seq<char>) -> bool {
    kind == "if_statement"@ || kind == "for_statement"@ || kind == "for_in_statement"@ || kind
        == "while_statement"@ || kind == "do_statement"@ || kind == "switch_case"@ || kind
        == "&&"@ || kind == "||"@ || kind == "catch_clause"@
}

fn is_decision(kind: &str) -> (r: bool)
    ensures
        r == spec_is_decision(kind@),
{
    str_eq(kind, "if_statement") || str_eq(kind, "for_statement") || str_eq(
        kind,
        "for_in_statement",
    ) || str_eq(kind, "while_statement") || str_eq(kind, "do_statement") || str_eq(
        kind,
        "switch_case",
    ) || str_eq(kind, "&&") || str_eq(kind, "||") || str_eq(kind, "catch_clause")
}

/// Number of decision points in the subtree rooted at a node. Subtrees of
/// nested function declarations are not entered, so a nested function never
/// inflates the enclosing function's count.
pub open spec fn spec_decision_points(n: SyntaxNode) -> int
    decreases n,
{
    (if spec_is_decision(n.kind@) {
        1int
    } else {
        0int
    }) + spec_decision_points_seq(n.children@)
}

pub open spec fn spec_decision_points_seq(s: Seq<SyntaxNode>) -> int
    decreases s,
{
    if s.len() == 0 {
        0int
    } else {
        (if s[0].kind@ == "function_declaration"@ {
            0int
        } else {
            spec_decision_points(s[0])
        }) + spec_decision_points_seq(s.skip(1))
    }
}

/// Decision-point counts are never negative.
pub proof fn lemma_decision_points_nonneg(n: SyntaxNode)
    ensures
        spec_decision_points(n) >= 0,
    decreases n,
{
    lemma_decision_points_seq_nonneg(n.children@);
}

pub proof fn lemma_decision_points_seq_nonneg(s: Seq<SyntaxNode>)
    ensures
        spec_decision_points_seq(s) >= 0,
    decreases s,
{
    if s.len() > 0 {
        if s[0].kind@ != "function_declaration"@ {
            lemma_decision_points_nonneg(s[0]);
        }
        lemma_decision_points_seq_nonneg(s.skip(1));
    }
}

pub open spec fn min_cap(x: int, cap: int) -> int {
    if x <= cap {
        x
    } else {
        cap
    }
}

fn sat_add_u64(a: u64, b: u64) -> (r: u64)
    ensures
        r as int == min_cap(a as int + b as int, u64::MAX as int),
{
    match a.checked_add(b) {
        Some(s) => s,
        None => u64::MAX,
    }
}

/// Count the decision points in the subtree rooted at `n`, saturating at the
/// counter's width.
pub fn count_decision_points(n: &SyntaxNode) -> (r: u64)
    ensures
        r as int == min_cap(spec_decision_points(*n), u64::MAX as int),
    decreases *n,
{
    proof {
        lemma_decision_points_nonneg(*n);
        lemma_decision_points_seq_nonneg(n.children@);
    }
    let mut total: u64 = if is_decision(n.kind.as_str()) {
        1
    } else {
        0
    };
    let ghost own: int = if spec_is_decision(n.kind@) {
        1int
    } else {
        0int
    };
    let mut j: usize = 0;
    while j < n.children.len()
        invariant
            0 <= j <= n.children@.len(),
            own == if spec_is_decision(n.kind@) {
                1int
            } else {
                0int
            },
            total as int == min_cap(
                own + spec_decision_points_seq(n.children@.take(j as int)),
                u64::MAX as int,
            ),
            spec_decision_points_seq(n.children@.take(j as int)) >= 0,
        decreases n.children@.len() - j,
    {
        let child = &n.children[j];
        let sub: u64 = if str_eq(child.kind.as_str(), "function_declaration") {
            0
        } else {
            count_decision_points(child)
        };
        proof {
            lemma_decision_points_seq_snoc(n.children@, j as int);
            if child.kind@ != "function_declaration"@ {
                lemma_decision_points_nonneg(*child);
            }
        }
        total = sat_add_u64(total, sub);
        j = j + 1;
    }
    proof {
        assert(n.children@.take(n.children@.len() as int) =~= n.children@);
    }
    total
}

/// The count over a prefix grows by the next child's contribution.
proof fn lemma_decision_points_seq_snoc(s: Seq<SyntaxNode>, i: int)
    requires
        0 <= i < s.len(),
    ensures
        spec_decision_points_seq(s.take(i + 1)) == spec_decision_points_seq(s.take(i)) + (
        if s[i].kind@ == "function_declaration"@ {
            0int
        } else {
            spec_decision_points(s[i])
        }),
    decreases i,
{
    if i == 0 {
        assert(s.take(1)[0] == s[0]);
        assert(s.take(1).skip(1) =~= Seq::<SyntaxNode>::empty());
        assert(s.take(0) =~= Seq::<SyntaxNode>::empty());
    } else {
        lemma_decision_points_seq_snoc(s.skip(1), i - 1);
        assert(s.take(i + 1)[0] == s[0]);
        assert(s.take(i + 1).skip(1) =~= s.skip(1).take(i));
        assert(s.take(i)[0] == s[0]);
        assert(s.take(i).skip(1) =~= s.skip(1).take(i - 1));
    }
}

/// Branching complexity of a function node: base one plus the decision points
/// of the subtree rooted at its `body` field child. A function node without a
/// recognizable body keeps the base score.
pub open spec fn spec_fn_complexity(n: SyntaxNode) -> u32 {
    match n.body_index {
        Some(bi) => if bi < n.children@.len() {
            min_cap(1 + spec_decision_points(n.children@[bi as int]), u32::MAX as int) as u32
        } else {
            1u32
        },
        None => 1u32,
    }
}

/// A function whose body holds no decision point has branching complexity
/// exactly one: the base case of the count.
pub proof fn lemma_base_complexity(n: SyntaxNode)
    requires
        n.body_index matches Some(bi) && bi < n.children@.len() && spec_decision_points(
            n.children@[bi as int],
        ) == 0,
    ensures
        spec_fn_complexity(n) == 1,
{
}

/// A `case` label counts as a decision point; a `default` label does not.
pub proof fn lemma_switch_case_counts()
    ensures
        spec_is_decision("switch_case"@),
        !spec_is_decision("switch_default"@),
{
    reveal_strlit("switch_case");
    reveal_strlit("switch_default");
    reveal_strlit("if_statement");
    reveal_strlit("for_statement");
    reveal_strlit("for_in_statement");
    reveal_strlit("while_statement");
    reveal_strlit("do_statement");
    reveal_strlit("&&");
    reveal_strlit("||");
    reveal_strlit("catch_clause");
    assert("switch_default"@.len() == 14);
    assert("switch_case"@.len() == 11);
    assert("if_statement"@.len() == 12);
    assert("for_statement"@.len() == 13);
    assert("for_in_statement"@.len() == 16);
    assert("while_statement"@.len() == 15);
    assert("do_statement"@.len() == 12);
    assert("&&"@.len() == 2);
    assert("||"@.len() == 2);
    assert("catch_clause"@.len() == 12);
    assert("catch_clause"@[0] == 'c' && "switch_default"@[0] == 's' && "if_statement"@[0]
        == 'i');
}

/// Compute the branching complexity of a function node.
pub fn function_complexity(n: &SyntaxNode) -> (r: u32)
    ensures
        r == spec_fn_complexity(*n),
        r >= 1,
{
    match n.body_index {
        Some(bi) => {
            if bi < n.children.len() {
                let body = &n.children[bi];
                proof {
                    lemma_decision_points_nonneg(*body);
                }
                let dp = count_decision_points(body);
                if dp >= (u32::MAX - 1) as u64 {
                    u32::MAX
                } else {
                    1 + (dp as u32)
                }
            } else {
                1
            }
        },
        None => 1,
    }
}

/// The views of a vector of symbols.
pub open spec fn symbol_views(s: Seq<Symbol>) -> Seq<SymbolV> {
    s.map_values(|x: Symbol| x@)
}

/// The symbols declared in the subtree rooted at `n`, in tree (pre-)order:
/// a node whose kind is in the dispatch table and whose `name` field is
/// present yields one symbol; a `Function` symbol carries its branching
/// complexity, every other kind carries none.
pub open spec fn spec_symbols(n: SyntaxNode) -> Seq<SymbolV>
    decreases n,
{
    spec_symbol_head(n) + spec_symbols_seq(n.children@)
}

/// The symbol recorded for the node itself, if any.
pub open spec fn spec_symbol_head(n: SyntaxNode) -> Seq<SymbolV> {
    match spec_symbol_kind(n.kind@) {
        Some(k) => match n.name_text {
            Some(name) => seq![
                SymbolV {
                    kind: k,
                    name: name@,
                    loc: spec_loc(n.start_row, n.end_row),
                    cyclomatic_complexity: if k is Function {
                        Some(spec_fn_complexity(n))
                    } else {
                        None
                    },
                    metrics: Seq::empty(),
                },
            ],
            None => Seq::empty(),
        },
        None => Seq::empty(),
    }
}

pub open spec fn spec_symbols_seq(s: Seq<SyntaxNode>) -> Seq<SymbolV>
    decreases s,
{
    if s.len() == 0 {
        Seq::empty()
    } else {
        spec_symbols(s[0]) + spec_symbols_seq(s.skip(1))
    }
}

proof fn lemma_symbols_seq_snoc(s: Seq<SyntaxNode>, i: int)
    requires
        0 <= i < s.len(),
    ensures
        spec_symbols_seq(s.take(i + 1)) == spec_symbols_seq(s.take(i)) + spec_symbols(s[i]),
    decreases i,
{
    if i == 0 {
        assert(s.take(1)[0] == s[0]);
        assert(s.take(1).skip(1) =~= Seq::<SyntaxNode>::empty());
        assert(s.take(0) =~= Seq::<SyntaxNode>::empty());
        assert(spec_symbols_seq(s.take(1)) =~~= spec_symbols_seq(s.take(0)) + spec_symbols(
            s[0],
        ));
    } else {
        lemma_symbols_seq_snoc(s.skip(1), i - 1);
        assert(s.take(i + 1)[0] == s[0]);
        assert(s.take(i + 1).skip(1) =~= s.skip(1).take(i));
        assert(s.take(i)[0] == s[0]);
        assert(s.take(i).skip(1) =~= s.skip(1).take(i - 1));
        assert(spec_symbols_seq(s.take(i + 1)) =~~= spec_symbols_seq(s.take(i)) + spec_symbols(
            s[i],
        ));
    }
}

fn walk_symbols(n: &SyntaxNode, out: &mut Vec<Symbol>)
    ensures
        symbol_views(final(out)@) == symbol_views(old(out)@) + spec_symbols(*n),
    decreases *n,
{
    let ghost base = symbol_views(out@);
    let head_kind = symbol_kind_for_node(n.kind.as_str());
    match head_kind {
        Some(k) => {
            match &n.name_text {
                Some(name) => {
                    let complexity: Option<u32> = if matches!(k, SymbolKind::Function) {
                        Some(function_complexity(n))
                    } else {
                        None
                    };
                    let sym = Symbol {
                        kind: k,
                        name: name.clone(),
                        loc: loc_of(n.start_row, n.end_row),
                        cyclomatic_complexity: complexity,
                        metrics: Vec::new(),
                    };
                    proof {
                        assert(spec_symbol_head(*n) =~~= seq![sym@]);
                    }
                    out.push(sym);
                    proof {
                        assert(symbol_views(out@) =~~= base + spec_symbol_head(*n));
                    }
                },
                None => {
                    proof {
                        assert(symbol_views(out@) =~~= base + spec_symbol_head(*n));
                    }
                },
            }
        },
        None => {
            proof {
                assert(symbol_views(out@) =~~= base + spec_symbol_head(*n));
            }
        },
    }
    let mut j: usize = 0;
    while j < n.children.len()
        invariant
            0 <= j <= n.children@.len(),
            symbol_views(out@) == base + spec_symbol_head(*n) + spec_symbols_seq(
                n.children@.take(j as int),
            ),
        decreases n.children@.len() - j,
    {
        walk_symbols(&n.children[j], out);
        proof {
            lemma_symbols_seq_snoc(n.children@, j as int);
            assert(symbol_views(out@) =~~= base + spec_symbol_head(*n) + spec_symbols_seq(
                n.children@.take(j as int + 1),
            ));
        }
        j = j + 1;
    }
    proof {
        assert(n.children@.take(n.children@.len() as int) =~= n.children@);
        assert(symbol_views(out@) =~~= symbol_views(old(out)@) + spec_symbols(*n));
    }
}

/// Every extracted symbol spans at least one line, and only `Function`
/// symbols carry a branching complexity.
pub proof fn lemma_symbols_well_formed(n: SyntaxNode)
    ensures
        forall|i: int|
            0 <= i < spec_symbols(n).len() ==> (#[trigger] spec_symbols(n)[i]).loc >= 1 && (!(
            spec_symbols(n)[i].kind is Function) ==> spec_symbols(n)[i].cyclomatic_complexity
                is None) && (spec_symbols(n)[i].kind is Function
                ==> spec_symbols(n)[i].cyclomatic_complexity is Some) && spec_symbols(
                n,
            )[i].metrics.len() == 0,
    decreases n,
{
    lemma_symbols_seq_well_formed(n.children@);
    assert(spec_symbols(n) == spec_symbol_head(n) + spec_symbols_seq(n.children@));
}

pub proof fn lemma_symbols_seq_well_formed(s: Seq<SyntaxNode>)
    ensures
        forall|i: int|
            0 <= i < spec_symbols_seq(s).len() ==> (#[trigger] spec_symbols_seq(s)[i]).loc >= 1
                && (!(spec_symbols_seq(s)[i].kind is Function) ==> spec_symbols_seq(
                s,
            )[i].cyclomatic_complexity is None) && (spec_symbols_seq(s)[i].kind is Function
                ==> spec_symbols_seq(s)[i].cyclomatic_complexity is Some) && spec_symbols_seq(
                s,
            )[i].metrics.len() == 0,
    decreases s,
{
    if s.len() > 0 {
        lemma_symbols_well_formed(s[0]);
        lemma_symbols_seq_well_formed(s.skip(1));
    }
}

/// Extract the declared symbols of the tree rooted at `root`, in source
/// order. Every symbol's `loc` is at least one line; exactly the `Function`
/// symbols carry a branching complexity.
pub fn extract_symbols(root: &SyntaxNode) -> (r: Vec<Symbol>)
    ensures
        symbol_views(r@) == spec_symbols(*root),
        forall|i: int| 0 <= i < r@.len() ==> (#[trigger] r@[i]@).loc >= 1,
        forall|i: int|
            0 <= i < r@.len() ==> (!((#[trigger] r@[i]@).kind is Function)
                ==> r@[i]@.cyclomatic_complexity is None),
        forall|i: int|
            0 <= i < r@.len() ==> ((#[trigger] r@[i]@).kind is Function
                ==> r@[i]@.cyclomatic_complexity is Some),
        forall|i: int| 0 <= i < r@.len() ==> (#[trigger] r@[i]@).metrics.len() == 0,
{
    let mut out: Vec<Symbol> = Vec::new();
    proof {
        assert(symbol_views(Seq::<Symbol>::empty()) =~= Seq::<SymbolV>::empty());
    }
    walk_symbols(root, &mut out);
    proof {
        lemma_symbols_well_formed(*root);
        assert(symbol_views(out@) =~~= spec_symbols(*root));
        assert(forall|i: int|
            0 <= i < out@.len() ==> (#[trigger] out@[i]@) == symbol_views(out@)[i]);
    }
    out
}

/// Characters stripped from both ends of an import path literal.
pub open spec fn is_quote(c: char) -> bool {
    c == '"' || c == '\''
}

/// The import path with quote characters removed from the front.
pub open spec fn strip_quotes_front(s: Seq<char>) -> Seq<char>
    decreases s.len(),
{
    if s.len() > 0 && is_quote(s[0]) {
        strip_quotes_front(s.skip(1))
    } else {
        s
    }
}

/// The import path with quote characters removed from the back.
pub open spec fn strip_quotes_back(s: Seq<char>) -> Seq<char>
    decreases s.len(),
{
    if s.len() > 0 && is_quote(s[s.len() - 1]) {
        strip_quotes_back(s.take(s.len() - 1))
    } else {
        s
    }
}

/// The import path with quote characters removed from both ends.
pub open spec fn strip_quotes(s: Seq<char>) -> Seq<char> {
    strip_quotes_back(strip_quotes_front(s))
}

fn is_quote_exec(c: char) -> (r: bool)
    ensures
        r == is_quote(c),
{
    c == '"' || c == '\''
}

/// Remove surrounding quote characters from a string literal's text.
fn strip_quotes_exec(s: &str) -> (r: String)
    ensures
        r@ == strip_quotes(s@),
{
    let n = s.unicode_len();
    proof {
        assert(s@.skip(0) =~= s@);
    }
    let mut a: usize = 0;
    while a < n && is_quote_exec(s.get_char(a))
        invariant
            0 <= a <= n,
            n == s@.len(),
            strip_quotes_front(s@) == strip_quotes_front(s@.skip(a as int)),
        decreases n - a,
    {
        proof {
            assert(s@.skip(a as int).skip(1) =~= s@.skip(a as int + 1));
        }
        a = a + 1;
    }
    if a == n {
        proof {
            assert(s@.skip(a as int) =~= Seq::<char>::empty());
            assert(strip_quotes(s@) =~= Seq::<char>::empty());
        }
        return String::new();
    }
    assert(strip_quotes_front(s@) == s@.skip(a as int));
    let mut b: usize = n - 1;
    while b > a && is_quote_exec(s.get_char(b))
        invariant
            a <= b < n,
            n == s@.len(),
            !is_quote(s@[a as int]),
            strip_quotes_front(s@) == s@.skip(a as int),
            strip_quotes_back(s@.skip(a as int)) == strip_quotes_back(
                s@.subrange(a as int, b as int + 1),
            ),
        decreases b,
    {
        proof {
            let cur = s@.subrange(a as int, b as int + 1);
            assert(cur[cur.len() - 1] == s@[b as int]);
            assert(cur.take(cur.len() - 1) =~= s@.subrange(a as int, b as int));
        }
        b = b - 1;
    }
    proof {
        let cur = s@.subrange(a as int, b as int + 1);
        assert(cur[cur.len() - 1] == s@[b as int]);
        assert(strip_quotes_back(cur) == cur);
        assert(s@.skip(a as int) =~= s@.subrange(a as int, n as int));
        assert(strip_quotes(s@) == s@.subrange(a as int, b as int + 1));
    }
    s.substring_char(a, b + 1).to_owned()
}

/// The views of a vector of dependency edges.
pub open spec fn edge_views(s: Seq<crate::types::DepEdge>) -> Seq<DepEdgeV> {
    s.map_values(|x: crate::types::DepEdge| x@)
}

/// The edge recorded for an import statement node: the quote-stripped text of
/// its `source` field, as an `Import` relation of fixed strength 0.7, with no
/// resolved source side. A node whose stripped path is empty records nothing.
pub open spec fn spec_import_head(n: SyntaxNode) -> Seq<DepEdgeV> {
    if n.kind@ == "import_statement"@ {
        match n.source_text {
            Some(text) => if strip_quotes(text@).len() > 0 {
                seq![
                    DepEdgeV {
                        source: None,
                        target: Some(strip_quotes(text@)),
                        relation: DepKind::Import,
                        strength_milli: 700u32,
                        files: None,
                    },
                ]
            } else {
                Seq::empty()
            },
            None => Seq::empty(),
        }
    } else {
        Seq::empty()
    }
}

/// The import edges of the subtree rooted at `n`, in tree order.
pub open spec fn spec_imports(n: SyntaxNode) -> Seq<DepEdgeV>
    decreases n,
{
    spec_import_head(n) + spec_imports_seq(n.children@)
}

pub open spec fn spec_imports_seq(s: Seq<SyntaxNode>) -> Seq<DepEdgeV>
    decreases s,
{
    if s.len() == 0 {
        Seq::empty()
    } else {
        spec_imports(s[0]) + spec_imports_seq(s.skip(1))
    }
}

proof fn lemma_imports_seq_snoc(s: Seq<SyntaxNode>, i: int)
    requires
        0 <= i < s.len(),
    ensures
        spec_imports_seq(s.take(i + 1)) == spec_imports_seq(s.take(i)) + spec_imports(s[i]),
    decreases i,
{
    if i == 0 {
        assert(s.take(1)[0] == s[0]);
        assert(s.take(1).skip(1) =~= Seq::<SyntaxNode>::empty());
        assert(s.take(0) =~= Seq::<SyntaxNode>::empty());
        assert(spec_imports_seq(s.take(1)) =~~= spec_imports_seq(s.take(0)) + spec_imports(
            s[0],
        ));
    } else {
        lemma_imports_seq_snoc(s.skip(1), i - 1);
        assert(s.take(i + 1)[0] == s[0]);
        assert(s.take(i + 1).skip(1) =~= s.skip(1).take(i));
        assert(s.take(i)[0] == s[0]);
        assert(s.take(i).skip(1) =~= s.skip(1).take(i - 1));
        assert(spec_imports_seq(s.take(i + 1)) =~~= spec_imports_seq(s.take(i)) + spec_imports(
            s[i],
        ));
    }
}

fn walk_imports(n: &SyntaxNode, out: &mut Vec<crate::types::DepEdge>)
    ensures
        edge_views(final(out)@) == edge_views(old(out)@) + spec_imports(*n),
    decreases *n,
{
    let ghost base = edge_views(out@);
    if str_eq(n.kind.as_str(), "import_statement") {
        match &n.source_text {
            Some(text) => {
                let cleaned = strip_quotes_exec(text.as_str());
                if cleaned.unicode_len() > 0 {
                    let edge = crate::types::DepEdge {
                        source: None,
                        target: Some(cleaned),
                        relation: DepKind::Import,
                        strength_milli: 700,
                        files: None,
                    };
                    proof {
                        assert(spec_import_head(*n) =~~= seq![edge@]);
                    }
                    out.push(edge);
                    proof {
                        assert(edge_views(out@) =~~= base + spec_import_head(*n));
                    }
                } else {
                    proof {
                        assert(edge_views(out@) =~~= base + spec_import_head(*n));
                    }
                }
            },
            None => {
                proof {
                    assert(edge_views(out@) =~~= base + spec_import_head(*n));
                }
            },
        }
    } else {
        proof {
            assert(edge_views(out@) =~~= base + spec_import_head(*n));
        }
    }
    let mut j: usize = 0;
    while j < n.children.len()
        invariant
            0 <= j <= n.children@.len(),
            edge_views(out@) == base + spec_import_head(*n) + spec_imports_seq(
                n.children@.take(j as int),
            ),
        decreases n.children@.len() - j,
    {
        walk_imports(&n.children[j], out);
        proof {
            lemma_imports_seq_snoc(n.children@, j as int);
            assert(edge_views(out@) =~~= base + spec_import_head(*n) + spec_imports_seq(
                n.children@.take(j as int + 1),
            ));
        }
        j = j + 1;
    }
    proof {
        assert(n.children@.take(n.children@.len() as int) =~= n.children@);
        assert(edge_views(out@) =~~= edge_views(old(out)@) + spec_imports(*n));
    }
}

/// Extract the import dependency edges of the tree rooted at `root`, in
/// source order.
pub fn extract_imports(root: &SyntaxNode) -> (r: Vec<crate::types::DepEdge>)
    ensures
        edge_views(r@) == spec_imports(*root),
{
    let mut out: Vec<crate::types::DepEdge> = Vec::new();
    proof {
        assert(edge_views(Seq::<crate::types::DepEdge>::empty()) =~= Seq::<DepEdgeV>::empty());
    }
    walk_imports(root, &mut out);
    proof {
        assert(edge_views(out@) =~~= spec_imports(*root));
    }
    out
}

} // verus!
