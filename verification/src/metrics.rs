use vstd::prelude::*;
use vstd::string::StringExecFns;
use crate::types::{ModuleIR, ModuleIRV, SymbolKind, spec_kind_label};
use crate::text::{dec_digits, u32_to_string};

verus! {

/// Scores are expressed in parts per million of the unit interval.
pub const SCORE_SCALE: u32 = 1000000;

/// Density part of the composite score: `0.4 * min(count / loc, 1)`,
/// in parts per million, floor division.
pub open spec fn spec_density_part(count: int, loc: int) -> int {
    if count >= loc {
        400000int
    } else {
        (400000 * count) / loc
    }
}

/// Size part of the composite score: `0.6 * (1 - 1 / (1 + avg / 50))` where
/// `avg = loc / count`, which simplifies to `0.6 * loc / (loc + 50 * count)`;
/// in parts per million, floor division, and `0` when there are no symbols.
pub open spec fn spec_size_part(count: int, loc: int) -> int {
    if count == 0 {
        0int
    } else {
        (600000 * loc) / (loc + 50 * count)
    }
}

/// Composite module score in parts per million: exactly `0` for an empty
/// module, otherwise the sum of the density and size parts.
pub open spec fn spec_module_score(count: int, loc: int) -> int {
    if loc == 0 {
        0int
    } else {
        spec_density_part(count, loc) + spec_size_part(count, loc)
    }
}

/// Per-symbol size score in parts per million:
/// `1 - 1 / (1 + loc / 30)`, which simplifies to `loc / (loc + 30)`.
pub open spec fn spec_symbol_score(loc: int) -> int {
    if loc == 0 {
        0int
    } else {
        (1000000 * loc) / (loc + 30)
    }
}

/// Composite complexity score of a module, in parts per million of the unit
/// interval. Combines symbol density (weight 0.4) and a saturating average
/// symbol size (weight 0.6, half point at 50 lines); the weights and divisors
/// are fixed heuristic defaults.
///
/// The score is exactly `0` when `loc == 0`, and strictly between `0` and
/// `SCORE_SCALE` whenever the module has at least one symbol and positive
/// `loc`.
pub fn calculate_complexity(module: &ModuleIR) -> (r: u32)
    ensures
        r == spec_module_score(module.symbols@.len() as int, module.loc as int),
        r <= SCORE_SCALE,
        module.loc == 0 ==> r == 0,
        module.loc > 0 && module.symbols@.len() > 0 ==> 0 < r < SCORE_SCALE,
{
    let count: u128 = module.symbols.len() as u128;
    let loc: u128 = module.loc as u128;
    if loc == 0 {
        return 0;
    }
    let density: u128 = if count >= loc {
        400000
    } else {
        proof {
            assert((400000 * count as int) / loc as int <= 400000 && (400000 * count as int)
                / loc as int >= 0) by (nonlinear_arith)
                requires
                    0 < loc as int,
                    0 <= count as int,
                    (count as int) < (loc as int),
            ;
        }
        (400000 * count) / loc
    };
    let size: u128 = if count == 0 {
        0
    } else {
        proof {
            assert((600000 * loc as int) / (loc as int + 50 * count as int) < 600000 && (600000
                * loc as int) / (loc as int + 50 * count as int) >= 0) by (nonlinear_arith)
                requires
                    0 < loc as int,
                    1 <= count as int,
            ;
        }
        (600000 * loc) / (loc + 50 * count)
    };
    proof {
        if count >= 1 && count < loc {
            assert((600000 * loc as int) / (loc as int + 50 * count as int) >= 1)
                by (nonlinear_arith)
                requires
                    1 <= count as int,
                    (count as int) < (loc as int),
            ;
        }
    }
    (density + size) as u32
}

/// Size-based complexity score of one symbol, in parts per million of the
/// unit interval: a saturating function of the symbol's own line span with
/// half point at 30 lines.
pub fn calculate_symbol_complexity(loc: u32) -> (r: u32)
    ensures
        r == spec_symbol_score(loc as int),
        r < SCORE_SCALE,
        loc == 0 ==> r == 0,
        loc > 0 ==> r > 0,
{
    if loc == 0 {
        return 0;
    }
    let l: u64 = loc as u64;
    proof {
        assert((1000000 * l as int) / (l as int + 30) < 1000000 && (1000000 * l as int) / (
        l as int + 30) >= 1) by (nonlinear_arith)
            requires
                1 <= (l as int) <= 0xffffffffint,
        ;
    }
    ((1000000 * l) / (l + 30)) as u32
}

/// The advice strings generated for one module and its fan counts.
pub open spec fn spec_suggestions(m: ModuleIRV, fan_in: u32, fan_out: u32) -> Seq<Seq<char>> {
    let base = if m.loc > 500 {
        seq!["Large file detected - consider splitting into smaller modules"@]
    } else {
        Seq::empty()
    };
    let with_fan_out = if fan_out > 10 {
        base.push(
            "High fan-out ("@ + dec_digits(fan_out as int)
                + ") - consider reducing dependencies"@,
        )
    } else {
        base
    };
    let with_fan_in = if fan_in > 10 {
        with_fan_out.push(
            "High fan-in ("@ + dec_digits(fan_in as int)
                + ") - consider extracting shared utilities"@,
        )
    } else {
        with_fan_out
    };
    with_fan_in + spec_symbol_suggestions(m.symbols.map_values(|s: crate::types::SymbolV| (s.kind, s.name, s.loc)))
}

/// The advice strings generated for the oversized symbols, in source order.
pub open spec fn spec_symbol_suggestions(syms: Seq<(SymbolKind, Seq<char>, u32)>) -> Seq<
    Seq<char>,
>
    decreases syms.len(),
{
    if syms.len() == 0 {
        Seq::empty()
    } else {
        let (kind, name, loc) = syms[0];
        let head: Seq<Seq<char>> = if loc > 80 {
            seq![
                "Large "@ + spec_kind_label(kind) + " '"@ + name + "' ("@ + dec_digits(
                    loc as int,
                ) + " LOC) - consider splitting"@,
            ]
        } else {
            Seq::empty()
        };
        head + spec_symbol_suggestions(syms.skip(1))
    }
}

/// Produce human-readable refactoring advice for a module: a large file, a
/// high fan-out or fan-in, and each symbol spanning more than 80 lines.
pub fn generate_suggestions(module: &ModuleIR, fan_in: u32, fan_out: u32) -> (r: Vec<String>)
    ensures
        r.deep_view() == spec_suggestions(module@, fan_in, fan_out),
{
    let mut out: Vec<String> = Vec::new();
    if module.loc > 500 {
        out.push("Large file detected - consider splitting into smaller modules".to_owned());
    }
    if fan_out > 10 {
        let mut s = "High fan-out (".to_owned();
        s.append(u32_to_string(fan_out).as_str());
        s.append(") - consider reducing dependencies");
        out.push(s);
    }
    if fan_in > 10 {
        let mut s = "High fan-in (".to_owned();
        s.append(u32_to_string(fan_in).as_str());
        s.append(") - consider extracting shared utilities");
        out.push(s);
    }
    let ghost pre = out.deep_view();
    let ghost triples = module@.symbols.map_values(
        |s: crate::types::SymbolV| (s.kind, s.name, s.loc),
    );
    let mut i: usize = 0;
    while i < module.symbols.len()
        invariant
            0 <= i <= module.symbols@.len(),
            triples == module@.symbols.map_values(
                |s: crate::types::SymbolV| (s.kind, s.name, s.loc),
            ),
            triples.len() == module.symbols@.len(),
            out.deep_view() == pre + spec_symbol_suggestions(triples.take(i as int)),
        decreases module.symbols@.len() - i,
    {
        let sym = &module.symbols[i];
        proof {
            assert(module@.symbols[i as int] == module.symbols@[i as int]@);
            assert(triples[i as int] == (sym@.kind, sym@.name, sym@.loc));
        }
        let ghost before = out.deep_view();
        if sym.loc > 80 {
            let mut s = "Large ".to_owned();
            s.append(sym.kind.label());
            s.append(" '");
            s.append(sym.name.as_str());
            s.append("' (");
            s.append(u32_to_string(sym.loc).as_str());
            s.append(" LOC) - consider splitting");
            proof {
                assert(s@ =~= "Large "@ + spec_kind_label(sym.kind) + " '"@ + sym.name@ + "' ("@
                    + dec_digits(sym.loc as int) + " LOC) - consider splitting"@);
            }
            out.push(s);
            proof {
                assert(out.deep_view() =~~= before.push(s@));
            }
        }
        proof {
            lemma_symbol_suggestions_snoc(triples, i as int);
            let (kind, name, loc) = triples[i as int];
            let head: Seq<Seq<char>> = if loc > 80 {
                seq![
                    "Large "@ + spec_kind_label(kind) + " '"@ + name + "' ("@ + dec_digits(
                        loc as int,
                    ) + " LOC) - consider splitting"@,
                ]
            } else {
                Seq::empty()
            };
            assert(out.deep_view() =~~= before + head);
            assert(out.deep_view() =~~= pre + spec_symbol_suggestions(
                triples.take(i as int + 1),
            ));
        }
        i = i + 1;
    }
    proof {
        assert(triples.take(triples.len() as int) =~= triples);
        assert(spec_suggestions(module@, fan_in, fan_out) =~~= pre + spec_symbol_suggestions(
            triples,
        ));
    }
    out
}

/// Appending one symbol to the processed prefix extends the advice list by
/// that symbol's contribution.
proof fn lemma_symbol_suggestions_snoc(syms: Seq<(SymbolKind, Seq<char>, u32)>, i: int)
    requires
        0 <= i < syms.len(),
    ensures
        ({
            let (kind, name, loc) = syms[i];
            let head: Seq<Seq<char>> = if loc > 80 {
                seq![
                    "Large "@ + spec_kind_label(kind) + " '"@ + name + "' ("@ + dec_digits(
                        loc as int,
                    ) + " LOC) - consider splitting"@,
                ]
            } else {
                Seq::empty()
            };
            spec_symbol_suggestions(syms.take(i + 1)) == spec_symbol_suggestions(syms.take(i))
                + head
        }),
    decreases i,
{
    if i == 0 {
        assert(syms.take(1)[0] == syms[0]);
        assert(syms.take(1).skip(1) =~= Seq::<(SymbolKind, Seq<char>, u32)>::empty());
        assert(syms.take(0) =~= Seq::<(SymbolKind, Seq<char>, u32)>::empty());
        assert(spec_symbol_suggestions(syms.take(0)) =~~= Seq::<Seq<char>>::empty());
        let (kind, name, loc) = syms[0];
        let head: Seq<Seq<char>> = if loc > 80 {
            seq![
                "Large "@ + spec_kind_label(kind) + " '"@ + name + "' ("@ + dec_digits(
                    loc as int,
                ) + " LOC) - consider splitting"@,
            ]
        } else {
            Seq::empty()
        };
        assert(spec_symbol_suggestions(syms.take(1)) =~~= spec_symbol_suggestions(syms.take(0))
            + head);
    } else {
        lemma_symbol_suggestions_snoc(syms.skip(1), i - 1);
        assert(syms.take(i + 1)[0] == syms[0]);
        assert(syms.take(i + 1).skip(1) =~= syms.skip(1).take(i));
        assert(syms.take(i)[0] == syms[0]);
        assert(syms.take(i).skip(1) =~= syms.skip(1).take(i - 1));
    }
}

/// Whether `sub` occurs contiguously in `s`.
pub open spec fn spec_contains(s: Seq<char>, sub: Seq<char>) -> bool {
    exists|i: int| 0 <= i <= s.len() - sub.len() && #[trigger] s.subrange(i, i + sub.len()) == sub
}

/// Substring search.
fn str_contains(s: &str, sub: &str) -> (r: bool)
    ensures
        r == spec_contains(s@, sub@),
{
    let n = s.unicode_len();
    let m = sub.unicode_len();
    if m > n {
        return false;
    }
    if m == 0 {
        proof {
            assert(s@.subrange(0, 0 + sub@.len() as int) =~= sub@);
        }
        return true;
    }
    let mut i: usize = 0;
    while i <= n - m
        invariant
            0 <= i <= n - m + 1,
            0 < m <= n,
            n == s@.len(),
            m == sub@.len(),
            forall|ii: int| 0 <= ii < i ==> #[trigger] s@.subrange(ii, ii + m) != sub@,
        decreases n - m - i + 1,
    {
        let mut j: usize = 0;
        while j < m && s.get_char(i + j) == sub.get_char(j)
            invariant
                0 <= j <= m,
                0 < m <= n,
                i <= n - m,
                n == s@.len(),
                m == sub@.len(),
                forall|k: int| 0 <= k < j ==> s@[i + k] == sub@[k],
            decreases m - j,
        {
            j = j + 1;
        }
        if j == m {
            proof {
                assert(s@.subrange(i as int, i + m) =~= sub@);
            }
            return true;
        }
        proof {
            assert(s@.subrange(i as int, i + m)[j as int] == s@[i + j]);
            assert(s@.subrange(i as int, i + m) != sub@);
        }
        i = i + 1;
    }
    false
}

/// The display category of a finding by its name: size, structure or
/// coupling, by the words the name holds, and otherwise other.
pub open spec fn spec_metric_category(name: Seq<char>) -> Seq<char> {
    if spec_contains(name, "file"@) || spec_contains(name, "loc"@) || spec_contains(
        name,
        "comment"@,
    ) || spec_contains(name, "blank"@) {
        "Size"@
    } else if spec_contains(name, "function"@) || spec_contains(name, "class"@)
        || spec_contains(name, "interface"@) || spec_contains(name, "type"@) {
        "Structure"@
    } else if spec_contains(name, "fan"@) || spec_contains(name, "import"@) || spec_contains(
        name,
        "coupling"@,
    ) {
        "Coupling"@
    } else {
        "Other"@
    }
}

/// Classify a finding name into its display category.
pub fn metric_category(name: &str) -> (r: &'static str)
    ensures
        r@ == spec_metric_category(name@),
{
    if str_contains(name, "file") || str_contains(name, "loc") || str_contains(name, "comment")
        || str_contains(name, "blank") {
        "Size"
    } else if str_contains(name, "function") || str_contains(name, "class") || str_contains(
        name,
        "interface",
    ) || str_contains(name, "type") {
        "Structure"
    } else if str_contains(name, "fan") || str_contains(name, "import") || str_contains(
        name,
        "coupling",
    ) {
        "Coupling"
    } else {
        "Other"
    }
}

} // verus!
