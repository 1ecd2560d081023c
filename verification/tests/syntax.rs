use modgraph::model::Span;
use modgraph::syntax::{Argument, CallSite, Callee, ImportClause, ImportSite, SyntaxSite};
use modgraph::visitor::{scan_module, Visitor, MAX_SOURCE_BYTES};

#[test]
fn scan_finds_calls_and_imports() {
    let sites = scan_module("import a from './a';\nconst b = require('./b');\n").unwrap();
    assert_eq!(
        sites,
        vec![
            SyntaxSite::Import(ImportSite {
                source: "./a".to_string(),
                clauses: vec![ImportClause::Default { local: "a".to_string() }],
                span: Span { start: 1, end: 21 },
            }),
            SyntaxSite::Call(CallSite {
                callee: Callee::Identifier("require".to_string()),
                args: vec![Argument { spread: false, literal: Some("./b".to_string()) }],
                span: Span { start: 32, end: 46 },
            }),
        ]
    );
}

#[test]
fn scan_reports_syntax_error() {
    let error = scan_module("const = ;").unwrap_err();
    assert!(!error.message.is_empty());
    assert!(error.span.start >= 1);
    assert!(error.span.start <= error.span.end);
}

#[test]
fn scan_of_empty_text_finds_nothing() {
    assert_eq!(scan_module("").unwrap(), vec![]);
}

#[test]
fn scan_visits_nested_calls_outermost_first() {
    let sites = scan_module("f(g(1), h.i(2));").unwrap();
    assert_eq!(
        sites,
        vec![
            SyntaxSite::Call(CallSite {
                callee: Callee::Identifier("f".to_string()),
                args: vec![
                    Argument { spread: false, literal: None },
                    Argument { spread: false, literal: None },
                ],
                span: Span { start: 1, end: 16 },
            }),
            SyntaxSite::Call(CallSite {
                callee: Callee::Identifier("g".to_string()),
                args: vec![Argument { spread: false, literal: None }],
                span: Span { start: 3, end: 7 },
            }),
            SyntaxSite::Call(CallSite {
                callee: Callee::Other,
                args: vec![Argument { spread: false, literal: None }],
                span: Span { start: 9, end: 15 },
            }),
        ]
    );
}

#[test]
fn scan_marks_spread_arguments() {
    let sites = scan_module("require(...'./a');").unwrap();
    assert_eq!(
        sites,
        vec![SyntaxSite::Call(CallSite {
            callee: Callee::Identifier("require".to_string()),
            args: vec![Argument { spread: true, literal: Some("./a".to_string()) }],
            span: Span { start: 1, end: 18 },
        })]
    );
}

#[test]
fn scan_copies_import_clauses() {
    let sites =
        scan_module("import d, { a, b as c, 'x-y' as z } from 'm';\nimport * as n from 'o';\nimport 'p';")
            .unwrap();
    assert_eq!(
        sites,
        vec![
            SyntaxSite::Import(ImportSite {
                source: "m".to_string(),
                clauses: vec![
                    ImportClause::Default { local: "d".to_string() },
                    ImportClause::Named { local: "a".to_string(), imported: None },
                    ImportClause::Named { local: "c".to_string(), imported: Some("b".to_string()) },
                    ImportClause::Named { local: "z".to_string(), imported: Some("x-y".to_string()) },
                ],
                span: Span { start: 1, end: 46 },
            }),
            SyntaxSite::Import(ImportSite {
                source: "o".to_string(),
                clauses: vec![ImportClause::Namespace { local: "n".to_string() }],
                span: Span { start: 47, end: 70 },
            }),
            SyntaxSite::Import(ImportSite {
                source: "p".to_string(),
                clauses: vec![],
                span: Span { start: 71, end: 82 },
            }),
        ]
    );
}

#[test]
fn visitor_new_keeps_path_and_has_no_sites() {
    let visitor = Visitor::new("./main.js".to_string());
    assert_eq!(visitor.full_rel_path, "./main.js");
    assert!(visitor.sites.is_empty());
}

#[test]
fn visitor_adds_sites_behind_earlier_ones() {
    let mut visitor = Visitor::new("/p/main.js".to_string());
    visitor.visit("require('./a');").unwrap();
    visitor.visit("require('./b');").unwrap();
    assert_eq!(visitor.full_rel_path, "/p/main.js");
    assert_eq!(visitor.sites.len(), 2);
    let specifiers: Vec<String> =
        visitor.references().into_iter().map(|reference| reference.specifier).collect();
    assert_eq!(specifiers, vec!["./a".to_string(), "./b".to_string()]);
}

#[test]
fn visitor_is_unchanged_by_a_syntax_error() {
    let mut visitor = Visitor::new("/p/main.js".to_string());
    visitor.visit("require('./a');").unwrap();
    let before = visitor.sites.len();
    assert!(visitor.visit("require('./b'); const = ;").is_err());
    assert_eq!(visitor.sites.len(), before);
}

#[test]
fn source_limit_is_positive() {
    assert_eq!(MAX_SOURCE_BYTES, 0x7fff_ffff);
}

#[test]
fn walk_meets_the_test_of_a_do_loop_before_its_body() {
    let sites = scan_module("do { body(); } while (test());").unwrap();
    let starts: Vec<u32> = sites
        .iter()
        .map(|site| match site {
            SyntaxSite::Call(call) => call.span.start,
            SyntaxSite::Import(import) => import.span.start,
        })
        .collect();
    assert_eq!(starts, vec![23, 6]);
}

#[test]
fn positions_are_counted_behind_a_byte_order_mark() {
    let with_mark = scan_module("\u{feff}require('./a');").unwrap();
    let without = scan_module("require('./a');").unwrap();
    assert_eq!(with_mark, without);
    match &with_mark[0] {
        SyntaxSite::Call(call) => assert_eq!(call.span, Span { start: 1, end: 15 }),
        SyntaxSite::Import(_) => panic!("a call was expected"),
    }
}
