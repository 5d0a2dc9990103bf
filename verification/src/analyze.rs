use vstd::prelude::*;
use crate::lines::{spec_classify, spec_lines};
use crate::rules::{
    metric_views, spec_registry_check_module, spec_registry_check_symbol, RuleRegistry,
};
use crate::discovery::spec_detect_language;
use crate::types::{DirectoryMetrics, ModuleIR, ModuleIRV, Severity, SymbolV};
use crate::typescript::{ParseError, TypeScriptAdapter};

verus! {

/// The module with every attached finding removed: what it looked like
/// before rule evaluation.
pub open spec fn spec_strip_metrics(m: ModuleIRV) -> ModuleIRV {
    ModuleIRV {
        metrics: Seq::empty(),
        symbols: m.symbols.map_values(|s: SymbolV| spec_strip_symbol(s)),
        ..m
    }
}

/// The symbol with its attached findings removed.
pub open spec fn spec_strip_symbol(s: SymbolV) -> SymbolV {
    SymbolV { metrics: Seq::empty(), ..s }
}

/// Evaluate every registered rule against a module and attach the findings:
/// the module-level findings to the module, each symbol's findings to that
/// symbol. Attaching is strictly additive — no structural field changes.
pub fn apply_rules(module: &mut ModuleIR, registry: &RuleRegistry)
    ensures
        ({
            let old_m = old(module)@;
            let new_m = final(module)@;
            &&& new_m.path == old_m.path
            &&& new_m.language == old_m.language
            &&& new_m.loc == old_m.loc
            &&& new_m.comment_lines == old_m.comment_lines
            &&& new_m.blank_lines == old_m.blank_lines
            &&& new_m.outgoing == old_m.outgoing
            &&& new_m.incoming == old_m.incoming
            &&& new_m.metrics == spec_registry_check_module(registry.rules@, old_m)
            &&& new_m.symbols.len() == old_m.symbols.len()
            &&& forall|i: int|
                0 <= i < new_m.symbols.len() ==> #[trigger] new_m.symbols[i]
                    == (SymbolV { metrics: spec_registry_check_symbol(registry.rules@, old_m.symbols[i]), ..old_m.symbols[i] })
        }),
{
    let ghost old_m = module@;
    let module_metrics = registry.check_module(module);
    module.metrics = module_metrics;
    proof {
        assert(metric_views(module.metrics@) =~~= spec_registry_check_module(
            registry.rules@,
            old_m,
        ));
        assert(module@.metrics =~~= metric_views(module.metrics@));
    }
    let mut new_symbols: Vec<crate::types::Symbol> = Vec::new();
    let mut i: usize = 0;
    while i < module.symbols.len()
        invariant
            0 <= i <= module.symbols@.len(),
            module@.symbols.len() == old_m.symbols.len(),
            module@.path == old_m.path,
            module@.language == old_m.language,
            module@.loc == old_m.loc,
            module@.comment_lines == old_m.comment_lines,
            module@.blank_lines == old_m.blank_lines,
            module@.outgoing =~~= old_m.outgoing,
            module@.incoming =~~= old_m.incoming,
            module@.metrics =~~= spec_registry_check_module(registry.rules@, old_m),
            forall|k: int|
                0 <= k < module@.symbols.len() ==> #[trigger] module@.symbols[k]
                    == old_m.symbols[k],
            new_symbols@.len() == i,
            forall|k: int|
                0 <= k < i ==> #[trigger] new_symbols@[k]@
                    == (SymbolV { metrics: spec_registry_check_symbol(registry.rules@, old_m.symbols[k]), ..old_m.symbols[k] }),
        decreases module.symbols@.len() - i,
    {
        let s_ref = &module.symbols[i];
        let symbol_metrics = registry.check_symbol(s_ref);
        let replaced = crate::types::Symbol {
            kind: s_ref.kind,
            name: s_ref.name.clone(),
            loc: s_ref.loc,
            cyclomatic_complexity: s_ref.cyclomatic_complexity,
            metrics: symbol_metrics,
        };
        proof {
            assert(module@.symbols[i as int] == old_m.symbols[i as int]);
            assert(s_ref@ == module@.symbols[i as int]);
            assert(metric_views(replaced.metrics@) == spec_registry_check_symbol(
                registry.rules@,
                old_m.symbols[i as int],
            ));
            assert(replaced@.metrics =~~= metric_views(replaced.metrics@));
            assert(replaced@.kind == old_m.symbols[i as int].kind && replaced@.name
                == old_m.symbols[i as int].name && replaced@.loc == old_m.symbols[i as int].loc
                && replaced@.cyclomatic_complexity
                == old_m.symbols[i as int].cyclomatic_complexity);
            assert(replaced@ =~~= (SymbolV {
                metrics: spec_registry_check_symbol(registry.rules@, old_m.symbols[i as int]),
                ..old_m.symbols[i as int]
            }));
        }
        new_symbols.push(replaced);
        i = i + 1;
    }
    module.symbols = new_symbols;
    proof {
        assert(module@.metrics =~~= spec_registry_check_module(registry.rules@, old_m));
        assert(module@.outgoing =~~= old_m.outgoing);
        assert(module@.incoming =~~= old_m.incoming);
    }
}

/// Parse one file and evaluate the configured rules on it: the per-file
/// pipeline with the file's text already read.
///
/// On success, the module's line counters are exactly the line
/// classification of the source and cover every physical line; the language
/// is derived from the path; and the attached findings are exactly what the
/// registry's rules emit for the module as parsed (its findings stripped).
pub fn analyze_file_source(
    adapter: &TypeScriptAdapter,
    registry: &RuleRegistry,
    path: &str,
    source: &str,
) -> (r: Result<ModuleIR, ParseError>)
    ensures
        r == Err::<ModuleIR, ParseError>(ParseError::TooLarge) <==> source@.len() > u32::MAX,
        r matches Err(e) ==> (e is TooLarge || e is Language || e is Grammar),
        r matches Ok(m) ==> {
            let counts = spec_classify(spec_lines(source@), false);
            &&& m@.path == path@
            &&& m@.language == spec_detect_language(path@)
            &&& m@.loc == counts.0
            &&& m@.comment_lines == counts.1
            &&& m@.blank_lines == counts.2
            &&& m@.loc + m@.comment_lines + m@.blank_lines == spec_lines(source@).len()
            &&& m@.metrics == spec_registry_check_module(
                registry.rules@,
                spec_strip_metrics(m@),
            )
            &&& forall|i: int|
                0 <= i < m@.symbols.len() ==> (#[trigger] m@.symbols[i]).metrics
                    == spec_registry_check_symbol(
                    registry.rules@,
                    spec_strip_symbol(m@.symbols[i]),
                )
            &&& forall|i: int| 0 <= i < m@.symbols.len() ==> (#[trigger] m@.symbols[i]).loc >= 1
            &&& forall|i: int|
                0 <= i < m@.symbols.len() ==> (!((#[trigger] m@.symbols[i]).kind is Function)
                    ==> m@.symbols[i].cyclomatic_complexity is None)
            &&& forall|i: int|
                0 <= i < m@.symbols.len() ==> ((#[trigger] m@.symbols[i]).kind is Function
                    ==> m@.symbols[i].cyclomatic_complexity is Some)
        },
{
    let mut module = match adapter.parse(path, source) {
        Ok(m) => m,
        Err(e) => {
            return Err(e);
        },
    };
    let ghost base = module@;
    apply_rules(&mut module, registry);
    proof {
        assert forall|i: int| 0 <= i < module@.symbols.len() implies spec_strip_symbol(
            #[trigger] module@.symbols[i]) =~~= base.symbols[i] by {
            assert(module@.symbols[i] == (SymbolV {
                metrics: spec_registry_check_symbol(registry.rules@, base.symbols[i]),
                ..base.symbols[i]
            }));
        }
        assert(spec_strip_metrics(module@) =~~= base);
        assert forall|i: int| 0 <= i < module@.symbols.len() implies #[trigger] module@.symbols[i].metrics
            == spec_registry_check_symbol(
            registry.rules@,
            spec_strip_symbol(module@.symbols[i]),
        ) by {
            assert(spec_strip_symbol(module@.symbols[i]) =~~= base.symbols[i]);
        }
    }
    Ok(module)
}

/// Whether a module carries at least one breaching finding.
pub open spec fn spec_has_issues(m: ModuleIRV) -> bool {
    exists|i: int| 0 <= i < m.metrics.len() && !((#[trigger] m.metrics[i]).severity is Info)
}

/// Whether a module carries at least one warning or error finding.
pub fn has_issues(module: &ModuleIR) -> (r: bool)
    ensures
        r == spec_has_issues(module@),
{
    let mut i: usize = 0;
    while i < module.metrics.len()
        invariant
            0 <= i <= module.metrics@.len(),
            forall|k: int|
                0 <= k < i ==> (#[trigger] module@.metrics[k]).severity is Info,
        decreases module.metrics@.len() - i,
    {
        let breach = match module.metrics[i].severity {
            Severity::Info => false,
            Severity::Warning => true,
            Severity::Error => true,
        };
        if breach {
            proof {
                assert(!(module@.metrics[i as int].severity is Info));
            }
            return true;
        }
        i = i + 1;
    }
    false
}

/// Sum of the code line counts of a module prefix, unbounded.
pub open spec fn spec_total_loc(ms: Seq<ModuleIRV>) -> int
    decreases ms,
{
    if ms.len() == 0 {
        0int
    } else {
        ms[0].loc + spec_total_loc(ms.skip(1))
    }
}

/// Aggregate counts over a batch of analyzed modules: how many there are
/// and their summed code line count, saturated at the counter's width.
pub fn directory_totals(modules: &Vec<ModuleIR>) -> (r: DirectoryMetrics)
    ensures
        r.files as int == crate::syntax::min_cap(modules@.len() as int, u32::MAX as int),
        r.loc as int == crate::syntax::min_cap(
            spec_total_loc(modules@.map_values(|m: ModuleIR| m@)),
            u32::MAX as int,
        ),
{
    let ghost views = modules@.map_values(|m: ModuleIR| m@);
    let mut loc: u32 = 0;
    let mut i: usize = 0;
    proof {
        lemma_total_loc_nonneg(views);
    }
    while i < modules.len()
        invariant
            0 <= i <= modules@.len(),
            views == modules@.map_values(|m: ModuleIR| m@),
            views.len() == modules@.len(),
            loc as int == crate::syntax::min_cap(
                spec_total_loc(views.take(i as int)),
                u32::MAX as int,
            ),
            spec_total_loc(views.take(i as int)) >= 0,
        decreases modules@.len() - i,
    {
        proof {
            lemma_total_loc_snoc(views, i as int);
            lemma_total_loc_nonneg(views.take(i as int + 1));
        }
        let m_loc = modules[i].loc;
        loc = match loc.checked_add(m_loc) {
            Some(s) => s,
            None => u32::MAX,
        };
        i = i + 1;
    }
    proof {
        assert(views.take(views.len() as int) =~= views);
    }
    let files: u32 = if modules.len() > u32::MAX as usize {
        u32::MAX
    } else {
        modules.len() as u32
    };
    DirectoryMetrics { files, loc }
}

proof fn lemma_total_loc_nonneg(ms: Seq<ModuleIRV>)
    ensures
        spec_total_loc(ms) >= 0,
    decreases ms,
{
    if ms.len() > 0 {
        lemma_total_loc_nonneg(ms.skip(1));
    }
}

proof fn lemma_total_loc_snoc(ms: Seq<ModuleIRV>, i: int)
    requires
        0 <= i < ms.len(),
    ensures
        spec_total_loc(ms.take(i + 1)) == spec_total_loc(ms.take(i)) + ms[i].loc,
    decreases i,
{
    if i == 0 {
        assert(ms.take(1)[0] == ms[0]);
        assert(ms.take(1).skip(1) =~= Seq::<ModuleIRV>::empty());
        assert(ms.take(0) =~= Seq::<ModuleIRV>::empty());
    } else {
        lemma_total_loc_snoc(ms.skip(1), i - 1);
        assert(ms.take(i + 1)[0] == ms[0]);
        assert(ms.take(i + 1).skip(1) =~= ms.skip(1).take(i));
        assert(ms.take(i)[0] == ms[0]);
        assert(ms.take(i).skip(1) =~= ms.skip(1).take(i - 1));
    }
}

} // verus!
