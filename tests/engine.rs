use rust_skills::aggregate::aggregate;
use rust_skills::analysis::{analyze_facts, categories_of, names_distinct, Config, Snippet};
use rust_skills::diagnostic::{Category, Diagnostic};
use rust_skills::exhaustive::{is_exhaustive, Pattern, Space};
use rust_skills::extract::{classify_node, extend_extents, extract, Node};
use rust_skills::facts::{Binding, Event, EventKind, Facts, Scope};
use rust_skills::grade::{contains_category, grade};
use rust_skills::imports::{check_imports, check_symbols, SymbolRef, UsePath, STD_ROOT};
use rust_skills::lifetime::check_lifetimes;
use rust_skills::types::Ty;
use rust_skills::ownership::check_ownership;

fn ev(kind: EventKind, binding: usize, span: u64, extent_end: u64) -> Event {
    Event { kind, binding, span, extent_end, holder: None }
}

fn d(category: Category, span: u64) -> Diagnostic {
    Diagnostic { category, span, confidence: category.confidence(), expected: Ty::Unknown, found: Ty::Unknown }
}

#[test]
fn grader_reports_extra_category_as_failure() {
    let r = grade(&vec![Category::UseAfterMove, Category::BorrowConflict], &vec![Category::UseAfterMove]);
    assert_eq!(r.matched, vec![Category::UseAfterMove]);
    assert!(r.missing.is_empty());
    assert_eq!(r.extra, vec![Category::BorrowConflict]);
    assert!(!r.pass);
}

#[test]
fn grader_reports_missing_category() {
    let r = grade(&vec![Category::UseAfterMove], &vec![Category::UseAfterMove, Category::DanglingReference]);
    assert_eq!(r.matched, vec![Category::UseAfterMove]);
    assert_eq!(r.missing, vec![Category::DanglingReference]);
    assert!(r.extra.is_empty());
    assert!(!r.pass);
}

#[test]
fn grader_passes_on_exact_match_with_repeats() {
    let produced = vec![Category::TypeMismatch, Category::NonExhaustiveMatch, Category::TypeMismatch];
    let r = grade(&produced, &vec![Category::NonExhaustiveMatch, Category::TypeMismatch]);
    assert_eq!(r.matched, vec![Category::TypeMismatch, Category::NonExhaustiveMatch]);
    assert!(r.pass);
}

#[test]
fn grader_is_idempotent_and_regrading_is_stable() {
    let produced = vec![Category::BorrowConflict, Category::UseAfterMove, Category::UnresolvedSymbol];
    let expected = vec![Category::UseAfterMove, Category::DanglingReference];
    let g1 = grade(&produced, &expected);
    let g2 = grade(&produced, &expected);
    assert_eq!((g1.matched.clone(), g1.missing.clone(), g1.extra.clone(), g1.pass), (g2.matched, g2.missing, g2.extra, g2.pass));
    let mut again = g1.matched.clone();
    again.extend(g1.extra.iter().copied());
    let g3 = grade(&again, &expected);
    assert_eq!((g1.matched, g1.missing, g1.extra, g1.pass), (g3.matched, g3.missing, g3.extra, g3.pass));
}

#[test]
fn grader_on_empty_inputs_passes() {
    let r = grade(&vec![], &vec![]);
    assert!(r.matched.is_empty() && r.missing.is_empty() && r.extra.is_empty());
    assert!(r.pass);
}

#[test]
fn contains_category_finds_members() {
    assert!(contains_category(&vec![Category::TypeMismatch], Category::TypeMismatch));
    assert!(!contains_category(&vec![], Category::TypeMismatch));
}

#[test]
fn aggregate_sorts_and_deduplicates() {
    let input = vec![
        Diagnostic { category: Category::TypeMismatch, span: 20, confidence: 1, expected: Ty::Unknown, found: Ty::Unknown },
        d(Category::UseAfterMove, 5),
        d(Category::TypeMismatch, 20),
        d(Category::BorrowConflict, 20),
        d(Category::UseAfterMove, 5),
    ];
    assert_eq!(
        aggregate(&input),
        vec![d(Category::UseAfterMove, 5), d(Category::BorrowConflict, 20), d(Category::TypeMismatch, 20)]
    );
    assert!(aggregate(&vec![]).is_empty());
    let m1 = Diagnostic::mismatch(7, Ty::Str, Ty::U64);
    let m2 = Diagnostic::mismatch(7, Ty::Bool, Ty::U64);
    assert_eq!(aggregate(&vec![m1, m2, m1]), vec![m1]);
    assert_eq!(aggregate(&vec![m2, m1]), vec![m2]);
}

#[test]
fn confidence_follows_category() {
    assert_eq!(Category::UseAfterMove.confidence(), 100);
    assert_eq!(Category::DanglingReference.confidence(), 100);
    assert_eq!(Category::UnresolvedImport.confidence(), 70);
    assert_eq!(Category::TypeMismatch.confidence(), 70);
    assert_eq!(Category::from_rank(Category::UnresolvedSymbol.rank()), Category::UnresolvedSymbol);
    assert!(!Category::BorrowConflict.message().is_empty());
}

#[test]
fn ownership_rules() {
    // exclusive borrow while a shared one is live
    let e1 = vec![ev(EventKind::BorrowShared, 0, 10, 30), ev(EventKind::BorrowExclusive, 0, 20, 20)];
    assert_eq!(check_ownership(&e1), vec![d(Category::BorrowConflict, 20)]);
    // two shared borrows are fine
    let e2 = vec![ev(EventKind::BorrowShared, 0, 10, 30), ev(EventKind::BorrowShared, 0, 20, 20)];
    assert!(check_ownership(&e2).is_empty());
    // shared borrow while an exclusive one is live
    let e3 = vec![ev(EventKind::BorrowExclusive, 0, 10, 30), ev(EventKind::BorrowShared, 0, 20, 20)];
    assert_eq!(check_ownership(&e3), vec![d(Category::BorrowConflict, 20)]);
    // move while borrowed
    let e4 = vec![ev(EventKind::BorrowShared, 0, 10, 30), ev(EventKind::Move, 0, 20, 20)];
    assert_eq!(check_ownership(&e4), vec![d(Category::BorrowConflict, 20)]);
    // a borrow whose extent ended is no conflict
    let e5 = vec![ev(EventKind::BorrowShared, 0, 10, 15), ev(EventKind::BorrowExclusive, 0, 20, 20)];
    assert!(check_ownership(&e5).is_empty());
    // a second move of a moved value, and a use of it; other bindings unaffected
    let e6 = vec![
        ev(EventKind::Move, 0, 10, 10),
        ev(EventKind::Use, 1, 15, 15),
        ev(EventKind::Move, 0, 20, 20),
        ev(EventKind::Use, 0, 30, 30),
    ];
    assert_eq!(check_ownership(&e6), vec![d(Category::UseAfterMove, 20), d(Category::UseAfterMove, 30)]);
    // use after move takes precedence over a conflict at the same event
    let e7 = vec![ev(EventKind::BorrowShared, 0, 5, 40), ev(EventKind::Move, 0, 10, 10), ev(EventKind::Move, 0, 20, 20)];
    assert_eq!(check_ownership(&e7), vec![d(Category::BorrowConflict, 10), d(Category::UseAfterMove, 20)]);
}

#[test]
fn lifetime_rule_on_a_fact_table() {
    let scopes = vec![
        Scope { start: 0, end: 100, parent: None },
        Scope { start: 10, end: 50, parent: Some(0) },
    ];
    let bindings = vec![
        Binding { name: 1, span: 5, scope: 0, copy: false },
        Binding { name: 2, span: 20, scope: 1, copy: false },
    ];
    let mut borrow = ev(EventKind::BorrowShared, 1, 30, 30);
    borrow.holder = Some(0);
    let events = vec![borrow, ev(EventKind::Use, 0, 60, 60)];
    assert_eq!(check_lifetimes(&scopes, &bindings, &events), vec![d(Category::DanglingReference, 30)]);
    let events = vec![borrow, ev(EventKind::Use, 0, 40, 40)];
    assert!(check_lifetimes(&scopes, &bindings, &events).is_empty());
}

#[test]
fn extract_builds_scopes_and_extents() {
    let nodes = vec![
        Node::Let { name: 7, span: 1, copy: true },
        Node::Let { name: 8, span: 2, copy: false },
        Node::Ref { name: 7, span: 3, exclusive: true, holder: Some(8) },
        Node::Open { span: 4 },
        Node::Value { name: 7, span: 5 },
        Node::Close { span: 6 },
        Node::Read { name: 8, span: 9 },
    ];
    let f = extract(&nodes);
    assert_eq!(f.scopes.len(), 2);
    assert_eq!(f.scopes[1], Scope { start: 4, end: 6, parent: Some(0) });
    assert_eq!(f.bindings.len(), 2);
    assert_eq!(f.events.len(), 3);
    assert_eq!(f.events[0], Event { kind: EventKind::BorrowExclusive, binding: 0, span: 3, extent_end: 9, holder: Some(1) });
    assert_eq!(f.events[1].kind, EventKind::Use);
    assert!(f.skipped.is_empty());
    assert_eq!(classify_node(Node::Value { name: 1, span: 1 }, false), Some(EventKind::Move));
    assert_eq!(classify_node(Node::Receiver { name: 1, span: 1, mutating: false }, false), Some(EventKind::BorrowShared));
    assert_eq!(classify_node(Node::Open { span: 1 }, false), None);
    let ext = extend_extents(&f.events);
    assert_eq!(ext, f.events);
}

#[test]
fn exhaustiveness_by_space() {
    assert!(is_exhaustive(Space::Bool, &vec![Pattern::Literal(1), Pattern::Literal(0)]));
    assert!(!is_exhaustive(Space::Bool, &vec![Pattern::Literal(1)]));
    assert!(is_exhaustive(Space::Enum(3), &vec![Pattern::Variant(2), Pattern::Variant(0), Pattern::Variant(1)]));
    assert!(!is_exhaustive(Space::Enum(3), &vec![Pattern::Variant(2), Pattern::Variant(0)]));
    assert!(is_exhaustive(Space::Enum(3), &vec![Pattern::Variant(2), Pattern::Wildcard]));
    assert!(!is_exhaustive(Space::Numeric, &vec![Pattern::Literal(200)]));
    assert!(is_exhaustive(Space::Unknown, &vec![]));
}

#[test]
fn imports_and_symbols() {
    let uses = vec![
        UsePath { span: 1, segments: vec![10, 11] },
        UsePath { span: 2, segments: vec![] },
        UsePath { span: 3, segments: vec![20, 21] },
        UsePath { span: 4, segments: vec![30, 31] },
        UsePath { span: 5, segments: vec![20, 22] },
        UsePath { span: 6, segments: vec![20] },
    ];
    let modules = vec![20];
    let crates = vec![10];
    assert_eq!(
        check_imports(&uses, &modules, &crates, &vec![21, 41]),
        vec![d(Category::UnresolvedImport, 2), d(Category::UnresolvedImport, 4), d(Category::UnresolvedImport, 5)]
    );
    let refs = vec![
        SymbolRef { name: 11, span: 5 },
        SymbolRef { name: 40, span: 6 },
        SymbolRef { name: 41, span: 7 },
        SymbolRef { name: 10, span: 8 },
    ];
    assert_eq!(check_symbols(&uses, &vec![41], &modules, &crates, &refs), vec![d(Category::UnresolvedSymbol, 6)]);
}

#[test]
fn analyze_facts_merges_all_checkers() {
    let facts = Facts {
        scopes: vec![Scope { start: 0, end: u64::MAX, parent: None }],
        bindings: vec![Binding { name: 1, span: 1, scope: 0, copy: false }],
        events: vec![ev(EventKind::Move, 0, 10, 10), ev(EventKind::Use, 0, 5000, 5000)],
        skipped: vec![7],
    };
    let snippet = Snippet {
        nodes: vec![],
        signatures: vec![],
        calls: vec![],
        matches: vec![],
        uses: vec![],
        modules: vec![],
        decls: vec![],
        refs: vec![SymbolRef { name: 9, span: 100 }],
    };
    let r = analyze_facts(&facts, &snippet, &Config { crates: vec![1] });
    assert_eq!(
        r,
        vec![d(Category::ParseUnsupported, 7), d(Category::UnresolvedSymbol, 100), d(Category::UseAfterMove, 5000)]
    );
    assert_eq!(
        categories_of(&r),
        vec![Category::ParseUnsupported, Category::UnresolvedSymbol, Category::UseAfterMove]
    );
    assert!(names_distinct(&vec![1, 2, 3]));
    assert!(!names_distinct(&vec![1, 2, 1]));
}

#[test]
fn evaluate_grades_or_rejects_labels() {
    let diags = vec![d(Category::UseAfterMove, 3), d(Category::BorrowConflict, 9)];
    let g = rust_skills::analysis::evaluate(&diags, &vec![Category::UseAfterMove]).ok().unwrap();
    assert_eq!(g.extra, vec![Category::BorrowConflict]);
    assert!(!g.pass);
    let e = rust_skills::analysis::evaluate(&diags, &vec![Category::UseAfterMove, Category::UseAfterMove]).err().unwrap();
    assert_eq!(e, vec![d(Category::ConfigurationInvalid, 0)]);
    assert!(rust_skills::analysis::categories_distinct(&vec![Category::UseAfterMove, Category::TypeMismatch]));
}

#[test]
fn standard_library_root_is_always_recognized() {
    let uses = vec![UsePath { span: 1, segments: vec![STD_ROOT, 11] }, UsePath { span: 2, segments: vec![12, 13] }];
    assert_eq!(check_imports(&uses, &vec![], &vec![], &vec![]), vec![d(Category::UnresolvedImport, 2)]);
    let refs = vec![SymbolRef { name: STD_ROOT, span: 3 }, SymbolRef { name: 12, span: 4 }];
    assert_eq!(check_symbols(&vec![], &vec![], &vec![], &vec![], &refs), vec![d(Category::UnresolvedSymbol, 4)]);
}
