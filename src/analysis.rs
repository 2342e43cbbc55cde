use vstd::prelude::*;

use crate::aggregate::{aggregate, lemma_merge_unique, merged};
use crate::diagnostic::{diag, Category, Diagnostic};
use crate::grade::{grade, grade_spec, GradeResult};
use crate::exhaustive::{check_matches, match_findings, MatchExpr};
use crate::extract::{extended, extract, extract_upto, extracted, Node};
use crate::facts::Facts;
use crate::imports::{check_imports, check_symbols, import_findings, symbol_findings, SymbolRef, UsePath};
use crate::lifetime::{check_lifetimes, lifetime_findings};
use crate::ownership::{check_ownership, ownership_findings};
use crate::types::{calls_mismatches, check_calls, mismatch_diag, Call, Mismatch, Signature};

verus! {

/// Everything the analysis reads of one parsed snippet, names interned.
pub struct Snippet {
    pub nodes: Vec<Node>,
    pub signatures: Vec<Signature>,
    pub calls: Vec<Call>,
    pub matches: Vec<MatchExpr>,
    pub uses: Vec<UsePath>,
    /// Modules declared in the file.
    pub modules: Vec<u64>,
    /// Items declared in the file.
    pub decls: Vec<u64>,
    pub refs: Vec<SymbolRef>,
}

/// The whitelist of recognized external crate roots. The standard library's
/// root (`imports::STD_ROOT`) is recognized whether or not it is listed.
pub struct Config {
    pub crates: Vec<u64>,
}

pub open spec fn distinct_names(s: Seq<u64>) -> bool {
    forall|i: int, j: int| 0 <= i < j < s.len() ==> s[i] != s[j]
}

/// A whitelist is well formed when it names no crate twice.
pub open spec fn config_valid(crates: Seq<u64>) -> bool {
    distinct_names(crates)
}

/// The position at which a malformed configuration is reported.
pub const CONFIG_SPAN: u64 = 0;

pub open spec fn skipped_findings(skipped: Seq<u64>) -> Seq<Diagnostic> {
    skipped.map_values(|s: u64| diag(Category::ParseUnsupported, s))
}

/// All findings of all checkers on a fact table and a snippet, before merging.
pub open spec fn raw_findings(f: Facts, s: Snippet, crates: Seq<u64>) -> Seq<Diagnostic> {
    ownership_findings(f.events@, f.events@.len())
        + lifetime_findings(f.scopes@, f.bindings@, f.events@, f.events@.len())
        + skipped_findings(f.skipped@)
        + calls_mismatches(s.signatures@, s.calls@, s.calls@.len()).map_values(|m: Mismatch| mismatch_diag(m))
        + match_findings(s.matches@, s.matches@.len())
        + import_findings(s.uses@, s.modules@, crates, s.decls@, s.uses@.len())
        + symbol_findings(s.uses@, s.decls@, s.modules@, crates, s.refs@, s.refs@.len())
}

/// The outcome of analysing one snippet: its fact table and its diagnostics.
pub struct Analysis {
    pub facts: Facts,
    pub diagnostics: Vec<Diagnostic>,
}

/// Whether the list holds no name twice.
pub fn names_distinct(v: &Vec<u64>) -> (r: bool)
    ensures
        r == distinct_names(v@),
{
    let mut i: usize = 0;
    while i < v.len()
        invariant
            i <= v.len(),
            forall|a: int, b: int| 0 <= a < b < v@.len() && a < i ==> v@[a] != v@[b],
        decreases v.len() - i,
    {
        let mut j: usize = i + 1;
        while j < v.len()
            invariant
                i < v.len(),
                i + 1 <= j <= v.len(),
                forall|a: int, b: int| 0 <= a < b < v@.len() && a < i ==> v@[a] != v@[b],
                forall|b: int| i < b < j ==> v@[i as int] != v@[b],
            decreases v.len() - j,
        {
            if v[i] == v[j] {
                return false;
            }
            j = j + 1;
        }
        i = i + 1;
    }
    true
}

fn append_all(out: &mut Vec<Diagnostic>, more: Vec<Diagnostic>)
    ensures
        final(out)@ == old(out)@ + more@,
{
    let mut more = more;
    out.append(&mut more);
}

/// Runs every checker on a fact table and a snippet and merges their findings.
/// A malformed whitelist yields a single `ConfigurationInvalid` finding and
/// nothing else.
pub fn analyze_facts(facts: &Facts, snippet: &Snippet, config: &Config) -> (r: Vec<Diagnostic>)
    requires
        facts.wf(),
    ensures
        !config_valid(config.crates@) ==> r@ == seq![diag(Category::ConfigurationInvalid, CONFIG_SPAN)],
        config_valid(config.crates@) ==> merged(raw_findings(*facts, *snippet, config.crates@), r@),
{
    if !names_distinct(&config.crates) {
        let mut r: Vec<Diagnostic> = Vec::new();
        r.push(Diagnostic::new(Category::ConfigurationInvalid, CONFIG_SPAN));
        return r;
    }
    let mut all = check_ownership(&facts.events);
    append_all(&mut all, check_lifetimes(&facts.scopes, &facts.bindings, &facts.events));
    let mut skipped: Vec<Diagnostic> = Vec::new();
    let mut i: usize = 0;
    while i < facts.skipped.len()
        invariant
            i <= facts.skipped@.len(),
            skipped@ == facts.skipped@.take(i as int).map_values(|s: u64| diag(Category::ParseUnsupported, s)),
        decreases facts.skipped@.len() - i,
    {
        skipped.push(Diagnostic::new(Category::ParseUnsupported, facts.skipped[i]));
        assert(facts.skipped@.take(i as int + 1) == facts.skipped@.take(i as int).push(facts.skipped@[i as int]));
        i = i + 1;
    }
    assert(facts.skipped@.take(facts.skipped@.len() as int) == facts.skipped@);
    append_all(&mut all, skipped);
    append_all(&mut all, check_calls(&snippet.signatures, &snippet.calls));
    append_all(&mut all, check_matches(&snippet.matches));
    append_all(&mut all, check_imports(&snippet.uses, &snippet.modules, &config.crates, &snippet.decls));
    append_all(&mut all, check_symbols(&snippet.uses, &snippet.decls, &snippet.modules, &config.crates, &snippet.refs));
    assert(all@ == raw_findings(*facts, *snippet, config.crates@));
    aggregate(&all)
}

/// `f` and `diags` are what analysing `snippet` under the whitelist `crates`
/// gives: the fact table of its body, and either the single finding of a
/// malformed whitelist or the merge of all checkers' findings.
pub open spec fn analysis_of(snippet: Snippet, crates: Seq<u64>, f: Facts, diags: Seq<Diagnostic>) -> bool {
    &&& extracted(snippet.nodes@, f)
    &&& !config_valid(crates) ==> diags == seq![diag(Category::ConfigurationInvalid, CONFIG_SPAN)]
    &&& config_valid(crates) ==> merged(raw_findings(f, snippet, crates), diags)
}

/// Extracts the facts of a snippet's body and analyses them.
pub fn analyze(snippet: &Snippet, config: &Config) -> (r: Analysis)
    ensures
        analysis_of(*snippet, config.crates@, r.facts, r.diagnostics@),
{
    let facts = extract(&snippet.nodes);
    let diagnostics = analyze_facts(&facts, snippet, config);
    Analysis { facts, diagnostics }
}

/// Analysis is deterministic: two analyses of the same snippet under the same
/// whitelist give identical diagnostic lists, in order, categories, positions
/// and confidences.
pub proof fn lemma_analysis_deterministic(
    snippet: Snippet,
    crates: Seq<u64>,
    f1: Facts,
    d1: Seq<Diagnostic>,
    f2: Facts,
    d2: Seq<Diagnostic>,
)
    requires
        analysis_of(snippet, crates, f1, d1),
        analysis_of(snippet, crates, f2, d2),
    ensures
        d1 == d2,
{
    let st = extract_upto(snippet.nodes@, snippet.nodes@.len());
    assert forall|i: int| 0 <= i < f1.events@.len() implies f1.events@[i] == f2.events@[i] by {
        assert(f1.events@[i] == extended(st.events, i));
        assert(f2.events@[i] == extended(st.events, i));
    }
    assert(f1.events@ =~= f2.events@);
    assert(raw_findings(f1, snippet, crates) == raw_findings(f2, snippet, crates));
    if config_valid(crates) {
        lemma_merge_unique(d1, d2);
    }
}

/// The categories of a diagnostic list, in order: what the grader takes as produced.
pub fn categories_of(diags: &Vec<Diagnostic>) -> (r: Vec<Category>)
    ensures
        r@ == diags@.map_values(|d: Diagnostic| d.category),
{
    let mut out: Vec<Category> = Vec::new();
    let mut i: usize = 0;
    while i < diags.len()
        invariant
            i <= diags@.len(),
            out@ == diags@.take(i as int).map_values(|d: Diagnostic| d.category),
        decreases diags@.len() - i,
    {
        out.push(diags[i].category);
        assert(diags@.take(i as int + 1) == diags@.take(i as int).push(diags@[i as int]));
        i = i + 1;
    }
    assert(diags@.take(diags@.len() as int) == diags@);
    out
}

/// An expected label set is well formed when it names no category twice.
pub open spec fn labels_valid(expected: Seq<Category>) -> bool {
    forall|i: int, j: int| 0 <= i < j < expected.len() ==> expected[i] != expected[j]
}

pub fn categories_distinct(v: &Vec<Category>) -> (r: bool)
    ensures
        r == labels_valid(v@),
{
    let mut i: usize = 0;
    while i < v.len()
        invariant
            i <= v.len(),
            forall|a: int, b: int| 0 <= a < b < v@.len() && a < i ==> v@[a] != v@[b],
        decreases v.len() - i,
    {
        let mut j: usize = i + 1;
        while j < v.len()
            invariant
                i < v.len(),
                i + 1 <= j <= v.len(),
                forall|a: int, b: int| 0 <= a < b < v@.len() && a < i ==> v@[a] != v@[b],
                forall|b: int| i < b < j ==> v@[i as int] != v@[b],
            decreases v.len() - j,
        {
            if v[i] == v[j] {
                return false;
            }
            j = j + 1;
        }
        i = i + 1;
    }
    true
}

/// Grades a snippet's diagnostics against its expected labels. Malformed
/// labels are reported as a single `ConfigurationInvalid` finding instead.
pub fn evaluate(diags: &Vec<Diagnostic>, expected: &Vec<Category>) -> (r: Result<GradeResult, Vec<Diagnostic>>)
    ensures
        labels_valid(expected@) ==> (r matches Ok(g) && g@ == grade_spec(
            diags@.map_values(|d: Diagnostic| d.category),
            expected@,
        )),
        !labels_valid(expected@) ==> (r matches Err(e) && e@ == seq![diag(Category::ConfigurationInvalid, CONFIG_SPAN)]),
{
    if !categories_distinct(expected) {
        let mut e: Vec<Diagnostic> = Vec::new();
        e.push(Diagnostic::new(Category::ConfigurationInvalid, CONFIG_SPAN));
        return Err(e);
    }
    let produced = categories_of(diags);
    Ok(grade(&produced, expected))
}

} // verus!
