use rust_skills::analysis::{analyze, Config, Snippet};
use rust_skills::diagnostic::{Category, Diagnostic};
use rust_skills::exhaustive::{MatchExpr, Pattern, Space};
use rust_skills::extract::Node;
use rust_skills::imports::{SymbolRef, UsePath};
use rust_skills::types::{Arg, Call, Signature, Ty};

const NAMES: u64 = 1;
const MOVED_NAMES: u64 = 2;
const DATA: u64 = 3;
const FIRST: u64 = 4;
const REFERENCE: u64 = 5;
const SHORT_LIVED: u64 = 6;

const STD: u64 = 10;
const COLLECTIONS: u64 = 11;
const BTREESET: u64 = 12;
const IO: u64 = 13;
const BUFWRITER: u64 = 14;
const SERDE: u64 = 15;
const SERIALIZE: u64 = 16;
const UTILS: u64 = 17;
const HELPERS: u64 = 18;
const FORMAT_NAME: u64 = 19;
const SERDE_JSON: u64 = 20;
const MODELS: u64 = 21;
const WRITE_USERS: u64 = 22;

const CONNECT: u64 = 30;
const APPLY_CONFIG: u64 = 31;
const CONFIG: u64 = 32;
const GET_STATUS_MESSAGE: u64 = 33;

fn empty_snippet() -> Snippet {
    Snippet {
        nodes: Vec::new(),
        signatures: Vec::new(),
        calls: Vec::new(),
        matches: Vec::new(),
        uses: Vec::new(),
        modules: Vec::new(),
        decls: Vec::new(),
        refs: Vec::new(),
    }
}

fn default_config() -> Config {
    Config { crates: vec![STD, SERDE, SERDE_JSON] }
}

fn borrow_errors() -> Snippet {
    let mut s = empty_snippet();
    s.nodes = vec![
        Node::Let { name: NAMES, span: 300, copy: false },
        Node::Let { name: MOVED_NAMES, span: 400, copy: false },
        Node::Value { name: NAMES, span: 418 },
        Node::Read { name: NAMES, span: 530 },
        Node::Let { name: DATA, span: 800, copy: false },
        Node::Let { name: FIRST, span: 900, copy: false },
        Node::Ref { name: DATA, span: 913, exclusive: false, holder: Some(FIRST) },
        Node::Receiver { name: DATA, span: 1000, mutating: true },
        Node::Read { name: FIRST, span: 1140 },
        Node::Let { name: REFERENCE, span: 1400, copy: false },
        Node::Open { span: 1500 },
        Node::Let { name: SHORT_LIVED, span: 1600, copy: false },
        Node::Ref { name: SHORT_LIVED, span: 1720, exclusive: false, holder: Some(REFERENCE) },
        Node::Close { span: 1800 },
        Node::Read { name: REFERENCE, span: 1930 },
    ];
    s
}

fn use_path(span: u64, segments: Vec<u64>) -> UsePath {
    UsePath { span, segments }
}

fn import_resolution(with_utils_use: bool) -> Snippet {
    let mut s = empty_snippet();
    s.uses = vec![
        use_path(100, vec![STD, COLLECTIONS, BTREESET]),
        use_path(200, vec![STD, IO, BUFWRITER]),
        use_path(300, vec![SERDE, SERIALIZE]),
    ];
    if with_utils_use {
        s.uses.push(use_path(400, vec![UTILS, HELPERS, FORMAT_NAME]));
    }
    s.modules = vec![MODELS];
    s.decls = vec![WRITE_USERS];
    s.refs = vec![
        SymbolRef { name: BTREESET, span: 1420 },
        SymbolRef { name: BUFWRITER, span: 1520 },
        SymbolRef { name: MODELS, span: 2310 },
        SymbolRef { name: WRITE_USERS, span: 2600 },
        SymbolRef { name: SERDE_JSON, span: 2820 },
        SymbolRef { name: FORMAT_NAME, span: 2920 },
    ];
    s
}

fn type_errors() -> Snippet {
    let mut s = empty_snippet();
    s.signatures = vec![
        Signature { name: CONNECT, params: vec![Ty::Str, Ty::U64] },
        Signature { name: APPLY_CONFIG, params: vec![Ty::Named(CONFIG)] },
        Signature { name: GET_STATUS_MESSAGE, params: vec![Ty::U32] },
    ];
    s.calls = vec![
        Call {
            callee: CONNECT,
            span: 1605,
            args: vec![Arg { ty: Ty::U64, span: 1613 }, Arg { ty: Ty::U32, span: 1633 }],
        },
        Call { callee: APPLY_CONFIG, span: 3205, args: vec![Arg { ty: Ty::Unknown, span: 3218 }] },
        Call { callee: GET_STATUS_MESSAGE, span: 3427, args: vec![Arg { ty: Ty::U32, span: 3446 }] },
    ];
    s.matches = vec![MatchExpr {
        span: 2005,
        space: Space::Numeric,
        arms: vec![Pattern::Literal(200), Pattern::Literal(404)],
    }];
    s
}

fn categories(d: &[Diagnostic]) -> Vec<Category> {
    d.iter().map(|x| x.category).collect()
}

#[test]
fn use_after_move_fires_once_at_the_index_read() {
    let a = analyze(&borrow_errors(), &default_config());
    let uam: Vec<&Diagnostic> = a.diagnostics.iter().filter(|d| d.category == Category::UseAfterMove).collect();
    assert_eq!(uam.len(), 1);
    assert_eq!(uam[0].span, 530);
    assert_eq!(uam[0].confidence, 100);
}

#[test]
fn borrow_conflict_fires_at_push_while_first_is_live() {
    let a = analyze(&borrow_errors(), &default_config());
    let bc: Vec<&Diagnostic> = a.diagnostics.iter().filter(|d| d.category == Category::BorrowConflict).collect();
    assert_eq!(bc.len(), 1);
    assert_eq!(bc[0].span, 1000);
}

#[test]
fn dangling_reference_fires_at_the_borrow_of_short_lived() {
    let a = analyze(&borrow_errors(), &default_config());
    let dr: Vec<&Diagnostic> = a.diagnostics.iter().filter(|d| d.category == Category::DanglingReference).collect();
    assert_eq!(dr.len(), 1);
    assert_eq!(dr[0].span, 1720);
}

#[test]
fn borrow_errors_fixture_gives_exactly_three_findings_in_order() {
    let a = analyze(&borrow_errors(), &default_config());
    assert_eq!(
        a.diagnostics,
        vec![
            Diagnostic { category: Category::UseAfterMove, span: 530, confidence: 100, expected: Ty::Unknown, found: Ty::Unknown },
            Diagnostic { category: Category::BorrowConflict, span: 1000, confidence: 100, expected: Ty::Unknown, found: Ty::Unknown },
            Diagnostic { category: Category::DanglingReference, span: 1720, confidence: 100, expected: Ty::Unknown, found: Ty::Unknown },
        ]
    );
}

#[test]
fn dangling_reference_needs_a_use_after_the_scope() {
    let mut s = borrow_errors();
    s.nodes.pop();
    let a = analyze(&s, &default_config());
    assert!(a.diagnostics.iter().all(|d| d.category != Category::DanglingReference));
}

#[test]
fn borrow_ending_before_push_is_no_conflict() {
    let mut s = borrow_errors();
    // drop the later read of `first`: the shared borrow ends where it is taken
    s.nodes.remove(8);
    let a = analyze(&s, &default_config());
    assert!(a.diagnostics.iter().all(|d| d.category != Category::BorrowConflict));
}

#[test]
fn analysis_is_deterministic() {
    let a = analyze(&borrow_errors(), &default_config());
    let b = analyze(&borrow_errors(), &default_config());
    assert_eq!(a.diagnostics, b.diagnostics);
    let c = analyze(&type_errors(), &default_config());
    let d = analyze(&type_errors(), &default_config());
    assert_eq!(c.diagnostics, d.diagnostics);
}

#[test]
fn absent_crate_import_is_unresolved_import() {
    let a = analyze(&import_resolution(true), &default_config());
    assert_eq!(
        a.diagnostics,
        vec![Diagnostic { category: Category::UnresolvedImport, span: 400, confidence: 70, expected: Ty::Unknown, found: Ty::Unknown }]
    );
}

#[test]
fn call_without_use_is_unresolved_symbol() {
    let a = analyze(&import_resolution(false), &default_config());
    assert_eq!(
        a.diagnostics,
        vec![Diagnostic { category: Category::UnresolvedSymbol, span: 2920, confidence: 70, expected: Ty::Unknown, found: Ty::Unknown }]
    );
}

#[test]
fn swapped_connect_arguments_are_type_mismatches() {
    let a = analyze(&type_errors(), &default_config());
    let tm: Vec<u64> =
        a.diagnostics.iter().filter(|d| d.category == Category::TypeMismatch).map(|d| d.span).collect();
    assert_eq!(tm, vec![1613, 1633]);
    let named: Vec<(Ty, Ty)> = a
        .diagnostics
        .iter()
        .filter(|d| d.category == Category::TypeMismatch)
        .map(|d| (d.expected, d.found))
        .collect();
    assert_eq!(named, vec![(Ty::Str, Ty::U64), (Ty::U64, Ty::U32)]);
    let ms = rust_skills::types::find_mismatches(&type_errors().signatures, &type_errors().calls);
    assert_eq!(ms.len(), 2);
    assert_eq!((ms[0].expected, ms[0].found), (Ty::Str, Ty::U64));
    assert_eq!((ms[1].expected, ms[1].found), (Ty::U64, Ty::U32));
}

#[test]
fn status_match_without_wildcard_is_non_exhaustive() {
    let a = analyze(&type_errors(), &default_config());
    assert_eq!(
        categories(&a.diagnostics),
        vec![Category::TypeMismatch, Category::TypeMismatch, Category::NonExhaustiveMatch]
    );
    assert_eq!(a.diagnostics[2], Diagnostic { category: Category::NonExhaustiveMatch, span: 2005, confidence: 70, expected: Ty::Unknown, found: Ty::Unknown });
}

#[test]
fn status_match_with_wildcard_is_exhaustive() {
    let mut s = type_errors();
    s.matches[0].arms.push(Pattern::Wildcard);
    let a = analyze(&s, &default_config());
    assert!(a.diagnostics.iter().all(|d| d.category != Category::NonExhaustiveMatch));
}

#[test]
fn duplicate_crate_is_configuration_invalid() {
    let cfg = Config { crates: vec![STD, SERDE, STD] };
    let a = analyze(&borrow_errors(), &cfg);
    assert_eq!(
        a.diagnostics,
        vec![Diagnostic { category: Category::ConfigurationInvalid, span: 0, confidence: 100, expected: Ty::Unknown, found: Ty::Unknown }]
    );
}

#[test]
fn clean_snippet_has_no_findings() {
    let a = analyze(&empty_snippet(), &Config { crates: vec![STD] });
    assert!(a.diagnostics.is_empty());
}

#[test]
fn unsupported_constructs_are_skipped_not_fatal() {
    let mut s = borrow_errors();
    s.nodes.insert(0, Node::Unsupported { span: 50 });
    s.nodes.push(Node::Close { span: 2000 });
    s.nodes.push(Node::Read { name: 99, span: 2100 });
    let a = analyze(&s, &default_config());
    assert_eq!(
        categories(&a.diagnostics),
        vec![
            Category::ParseUnsupported,
            Category::UseAfterMove,
            Category::BorrowConflict,
            Category::DanglingReference,
            Category::ParseUnsupported,
            Category::ParseUnsupported,
        ]
    );
    assert_eq!(a.facts.skipped, vec![50, 2000, 2100]);
}
