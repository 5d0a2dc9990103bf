use vstd::prelude::*;
use crate::rules::{
    ComplexityRule, CouplingRule, FileSizeRule, FunctionSizeRule, Rule, RuleRegistry,
    StructureStatsRule,
};
use crate::types::Severity;

verus! {

fn default_max_file_loc() -> (r: u32)
    ensures
        r == 300,
{
    300
}

fn default_max_function_loc() -> (r: u32)
    ensures
        r == 40,
{
    40
}

fn default_max_functions_per_file() -> (r: usize)
    ensures
        r == 20,
{
    20
}

fn default_max_types_per_file() -> (r: usize)
    ensures
        r == 30,
{
    30
}

fn default_max_fan_out() -> (r: usize)
    ensures
        r == 7,
{
    7
}

fn default_max_imports() -> (r: usize)
    ensures
        r == 15,
{
    15
}

fn default_severity_name() -> (r: String)
    ensures
        r@ == "Warning"@,
{
    "Warning".to_owned()
}

/// Named severities for the configurable rules, as written in configuration.
#[derive(Clone, Debug)]
pub struct SeverityConfig {
    pub max_file_loc: String,
    pub max_function_loc: String,
    pub max_fan_out: String,
}

/// The named severities a default configuration carries.
pub open spec fn spec_default_severity_config(c: SeverityConfig) -> bool {
    c.max_file_loc@ == "Warning"@ && c.max_function_loc@ == "Warning"@ && c.max_fan_out@
        == "Warning"@
}

impl Default for SeverityConfig {
    /// Every configurable severity defaults to `Warning`.
    fn default() -> (r: SeverityConfig)
        ensures
            spec_default_severity_config(r),
    {
        SeverityConfig {
            max_file_loc: default_severity_name(),
            max_function_loc: default_severity_name(),
            max_fan_out: default_severity_name(),
        }
    }
}

/// The numeric thresholds the rule registry is built from.
#[derive(Clone, Debug)]
pub struct RulesConfig {
    pub max_file_loc: u32,
    pub max_function_loc: u32,
    pub max_functions_per_file: usize,
    pub max_types_per_file: usize,
    pub max_fan_out: usize,
    pub max_imports: usize,
    pub severity: SeverityConfig,
}

/// The thresholds a default configuration carries.
pub open spec fn spec_default_rules_config(c: RulesConfig) -> bool {
    c.max_file_loc == 300 && c.max_function_loc == 40 && c.max_functions_per_file == 20
        && c.max_types_per_file == 30 && c.max_fan_out == 7 && c.max_imports == 15
        && spec_default_severity_config(c.severity)
}

impl Default for RulesConfig {
    /// The fixed default thresholds.
    fn default() -> (r: RulesConfig)
        ensures
            spec_default_rules_config(r),
    {
        RulesConfig {
            max_file_loc: default_max_file_loc(),
            max_function_loc: default_max_function_loc(),
            max_functions_per_file: default_max_functions_per_file(),
            max_types_per_file: default_max_types_per_file(),
            max_fan_out: default_max_fan_out(),
            max_imports: default_max_imports(),
            severity: SeverityConfig::default(),
        }
    }
}

/// The flat configuration surface the rule engine consumes: named numeric
/// thresholds and named severities. Loading and parsing a configuration file
/// is the caller's business; a missing or malformed file falls back to the
/// default configuration.
#[derive(Clone, Debug)]
pub struct Config {
    pub rules: RulesConfig,
}

impl Default for Config {
    /// The default configuration.
    fn default() -> (r: Config)
        ensures
            spec_default_rules_config(r.rules),
    {
        Config { rules: RulesConfig::default() }
    }
}

/// Case-insensitive equality of two characters, for letters of the basic
/// alphabet.
pub open spec fn spec_ci_char_eq(a: char, b: char) -> bool {
    a == b || ('A' <= a <= 'Z' && 'a' <= b <= 'z' && a as int + 32 == b as int) || ('A' <= b
        <= 'Z' && 'a' <= a <= 'z' && b as int + 32 == a as int)
}

/// Case-insensitive equality of two strings.
pub open spec fn spec_ci_eq(s: Seq<char>, t: Seq<char>) -> bool {
    s.len() == t.len() && forall|i: int| 0 <= i < s.len() ==> spec_ci_char_eq(s[i], t[i])
}

/// Compare two strings ignoring the case of basic letters.
fn ci_eq(s: &str, t: &str) -> (r: bool)
    ensures
        r == spec_ci_eq(s@, t@),
{
    let n = s.unicode_len();
    if n != t.unicode_len() {
        return false;
    }
    let mut i: usize = 0;
    while i < n
        invariant
            0 <= i <= n,
            n == s@.len(),
            n == t@.len(),
            forall|k: int| 0 <= k < i ==> spec_ci_char_eq(s@[k], t@[k]),
        decreases n - i,
    {
        let a = s.get_char(i);
        let b = t.get_char(i);
        let matches_here = a == b || ('A' <= a && a <= 'Z' && 'a' <= b && b <= 'z' && (
        a as u32) + 32 == (b as u32)) || ('A' <= b && b <= 'Z' && 'a' <= a && a <= 'z' && (
        b as u32) + 32 == (a as u32));
        if !matches_here {
            return false;
        }
        i = i + 1;
    }
    true
}

/// The severity a configuration name denotes: `error` and `warning`, in any
/// letter case, name their severities, and any other string means `Info`.
pub open spec fn spec_parse_severity(s: Seq<char>) -> Severity {
    if spec_ci_eq(s, "error"@) {
        Severity::Error
    } else if spec_ci_eq(s, "warning"@) {
        Severity::Warning
    } else {
        Severity::Info
    }
}

/// Parse a configured severity name.
pub fn parse_severity(s: &str) -> (r: Severity)
    ensures
        r == spec_parse_severity(s@),
{
    proof {
        reveal_strlit("error");
        reveal_strlit("warning");
    }
    if ci_eq(s, "error") {
        Severity::Error
    } else if ci_eq(s, "warning") {
        Severity::Warning
    } else {
        Severity::Info
    }
}

/// The registry a configuration builds: the four built-in rules with the
/// configured thresholds, in fixed order; the structure rule always carries
/// `Warning` severity.
pub open spec fn spec_registry_of(c: Config) -> Seq<Rule> {
    seq![
        Rule::FileSize(
            FileSizeRule {
                max_loc: c.rules.max_file_loc,
                severity: spec_parse_severity(c.rules.severity.max_file_loc@),
            },
        ),
        Rule::FunctionSize(
            FunctionSizeRule {
                max_loc: c.rules.max_function_loc,
                severity: spec_parse_severity(c.rules.severity.max_function_loc@),
            },
        ),
        Rule::Coupling(
            CouplingRule {
                max_fan_out: c.rules.max_fan_out,
                max_imports: c.rules.max_imports,
                severity: spec_parse_severity(c.rules.severity.max_fan_out@),
            },
        ),
        Rule::StructureStats(
            StructureStatsRule {
                max_functions_per_file: c.rules.max_functions_per_file,
                max_types_per_file: c.rules.max_types_per_file,
                severity: Severity::Warning,
            },
        ),
    ]
}

impl Config {
    /// The configuration to analyze with: the parsed one when a
    /// configuration file was found and parsed, else the default. The caller
    /// reads and parses the file; a missing or malformed file hands in
    /// nothing.
    pub fn load_or_default(parsed: Option<Config>) -> (r: Config)
        ensures
            parsed matches Some(c) ==> r == c,
            parsed is None ==> spec_default_rules_config(r.rules),
    {
        match parsed {
            Some(c) => c,
            None => Config::default(),
        }
    }

    /// Build the rule registry this configuration describes.
    pub fn to_rule_registry(&self) -> (r: RuleRegistry)
        ensures
            r.rules@ == spec_registry_of(*self),
    {
        let mut registry = RuleRegistry::new();
        let file_severity = parse_severity(self.rules.severity.max_file_loc.as_str());
        registry.register(
            Rule::FileSize(FileSizeRule::new(self.rules.max_file_loc, file_severity)),
        );
        let func_severity = parse_severity(self.rules.severity.max_function_loc.as_str());
        registry.register(
            Rule::FunctionSize(FunctionSizeRule::new(self.rules.max_function_loc, func_severity)),
        );
        let coupling_severity = parse_severity(self.rules.severity.max_fan_out.as_str());
        registry.register(
            Rule::Coupling(
                CouplingRule::new(self.rules.max_fan_out, self.rules.max_imports, coupling_severity),
            ),
        );
        registry.register(
            Rule::StructureStats(
                StructureStatsRule::new(
                    self.rules.max_functions_per_file,
                    self.rules.max_types_per_file,
                    Severity::Warning,
                ),
            ),
        );
        proof {
            assert(registry.rules@ =~= spec_registry_of(*self));
        }
        registry
    }
}


} // verus!
