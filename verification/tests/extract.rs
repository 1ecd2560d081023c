use modgraph::extract::extract;
use modgraph::model::{ImportKind, RawReference, Span};
use modgraph::syntax::{Argument, CallSite, Callee, ImportClause, ImportSite, SyntaxSite};
use modgraph::visitor::extract_module;

fn call(callee: Callee, args: Vec<Argument>) -> SyntaxSite {
    SyntaxSite::Call(CallSite { callee, args, span: Span { start: 3, end: 9 } })
}

fn literal(text: &str) -> Argument {
    Argument { spread: false, literal: Some(text.to_string()) }
}

fn require() -> Callee {
    Callee::Identifier("require".to_string())
}

#[test]
fn module_without_constructs_has_no_references() {
    assert_eq!(extract_module("const a = 1;\nfunction f() { return a + 2; }\nf(a);").unwrap(), vec![]);
    assert_eq!(extract(&vec![]), vec![]);
    assert_eq!(extract(&vec![call(Callee::Identifier("f".to_string()), vec![literal("./a")])]), vec![]);
}

#[test]
fn require_with_literal_is_a_reference() {
    assert_eq!(
        extract(&vec![call(require(), vec![literal("./x")])]),
        vec![RawReference {
            specifier: "./x".to_string(),
            kind: ImportKind::RequireCall,
            source_span: Span { start: 3, end: 9 },
        }]
    );
}

#[test]
fn require_with_variable_is_ignored() {
    assert_eq!(extract_module("const x = './x'; require(x);").unwrap(), vec![]);
    assert_eq!(
        extract(&vec![call(require(), vec![Argument { spread: false, literal: None }])]),
        vec![]
    );
}

#[test]
fn require_with_other_arity_is_ignored() {
    assert_eq!(extract_module("require(); require('./a', './b');").unwrap(), vec![]);
    assert_eq!(extract(&vec![call(require(), vec![])]), vec![]);
    assert_eq!(extract(&vec![call(require(), vec![literal("./a"), literal("./b")])]), vec![]);
}

#[test]
fn require_with_non_string_literal_is_ignored() {
    assert_eq!(extract_module("require(1); require(`./t`); require('./a' + x);").unwrap(), vec![]);
}

#[test]
fn require_with_spread_is_ignored() {
    assert_eq!(extract_module("require(...'./a');").unwrap(), vec![]);
    assert_eq!(
        extract(&vec![call(require(), vec![Argument { spread: true, literal: Some("./a".to_string()) }])]),
        vec![]
    );
}

#[test]
fn member_call_named_require_is_ignored() {
    assert_eq!(extract_module("loader.require('./a'); require.resolve('./b');").unwrap(), vec![]);
    assert_eq!(extract(&vec![call(Callee::Other, vec![literal("./a")])]), vec![]);
}

#[test]
fn nested_requires_are_found_in_source_order() {
    let references = extract_module(
        "function load() { if (ready) { return require('./deep'); } }\nconst a = [require('./list')];\n",
    )
    .unwrap();
    assert_eq!(
        references,
        vec![
            RawReference {
                specifier: "./deep".to_string(),
                kind: ImportKind::RequireCall,
                source_span: Span { start: 39, end: 56 },
            },
            RawReference {
                specifier: "./list".to_string(),
                kind: ImportKind::RequireCall,
                source_span: Span { start: 73, end: 90 },
            },
        ]
    );
}

#[test]
fn import_gives_one_reference_per_clause() {
    let span = Span { start: 1, end: 40 };
    let site = SyntaxSite::Import(ImportSite {
        source: "./m".to_string(),
        clauses: vec![
            ImportClause::Default { local: "d".to_string() },
            ImportClause::Named { local: "a".to_string(), imported: None },
            ImportClause::Named { local: "c".to_string(), imported: Some("b".to_string()) },
            ImportClause::Namespace { local: "n".to_string() },
        ],
        span,
    });
    assert_eq!(
        extract(&vec![site]),
        vec![
            RawReference { specifier: "./m".to_string(), kind: ImportKind::ImportDefault, source_span: span },
            RawReference {
                specifier: "./m".to_string(),
                kind: ImportKind::ImportNamed { local: "a".to_string(), remote: "a".to_string() },
                source_span: span,
            },
            RawReference {
                specifier: "./m".to_string(),
                kind: ImportKind::ImportNamed { local: "c".to_string(), remote: "b".to_string() },
                source_span: span,
            },
            RawReference { specifier: "./m".to_string(), kind: ImportKind::ImportNamespace, source_span: span },
        ]
    );
}

#[test]
fn import_without_clauses_is_side_effect_only() {
    assert_eq!(
        extract_module("import './setup';").unwrap(),
        vec![RawReference {
            specifier: "./setup".to_string(),
            kind: ImportKind::ImportSideEffectOnly,
            source_span: Span { start: 1, end: 18 },
        }]
    );
}

#[test]
fn import_of_string_name_keeps_its_string_form() {
    assert_eq!(
        extract_module("import { 'x-y' as z } from 'm';").unwrap(),
        vec![RawReference {
            specifier: "m".to_string(),
            kind: ImportKind::ImportNamed { local: "z".to_string(), remote: "x-y".to_string() },
            source_span: Span { start: 1, end: 32 },
        }]
    );
}

#[test]
fn imports_and_requires_keep_source_order() {
    let kinds: Vec<ImportKind> = extract_module("import a from 'a';\nrequire('b');\nimport * as c from 'c';")
        .unwrap()
        .into_iter()
        .map(|reference| reference.kind)
        .collect();
    assert_eq!(kinds, vec![ImportKind::ImportDefault, ImportKind::RequireCall, ImportKind::ImportNamespace]);
}

#[test]
fn extract_module_reports_syntax_error() {
    assert!(extract_module("import from;").is_err());
}

#[test]
fn references_come_in_source_order_whatever_the_walk() {
    let specifiers = |source: &str| -> Vec<String> {
        extract_module(source).unwrap().into_iter().map(|reference| reference.specifier).collect()
    };
    assert_eq!(
        specifiers("do { require('./body'); } while (require('./test'));"),
        vec!["./body".to_string(), "./test".to_string()]
    );
    assert_eq!(
        specifiers("class A extends require('./base') { m() { return require('./used'); } }"),
        vec!["./base".to_string(), "./used".to_string()]
    );
}

#[test]
fn sites_in_any_order_give_ordered_references() {
    let at = |start: u32, specifier: &str| {
        SyntaxSite::Call(CallSite {
            callee: require(),
            args: vec![literal(specifier)],
            span: Span { start, end: start + 5 },
        })
    };
    let import = SyntaxSite::Import(ImportSite {
        source: "m".to_string(),
        clauses: vec![
            ImportClause::Namespace { local: "n".to_string() },
            ImportClause::Default { local: "d".to_string() },
        ],
        span: Span { start: 10, end: 15 },
    });
    let references = extract(&vec![at(30, "c"), import, at(20, "b"), at(10, "a"), at(5, "z")]);
    let found: Vec<(u32, String, ImportKind)> = references
        .into_iter()
        .map(|reference| (reference.source_span.start, reference.specifier, reference.kind))
        .collect();
    assert_eq!(
        found,
        vec![
            (5, "z".to_string(), ImportKind::RequireCall),
            (10, "m".to_string(), ImportKind::ImportNamespace),
            (10, "m".to_string(), ImportKind::ImportDefault),
            (10, "a".to_string(), ImportKind::RequireCall),
            (20, "b".to_string(), ImportKind::RequireCall),
            (30, "c".to_string(), ImportKind::RequireCall),
        ]
    );
}

#[test]
fn dynamic_import_and_optional_call_are_not_references() {
    assert_eq!(extract_module("import('./a'); require?.('./b'); new require('./c');").unwrap(), vec![]);
}

#[test]
fn odd_sources_are_parsed_or_refused() {
    assert_eq!(extract_module("#!/usr/bin/env node\n// only a comment\n").unwrap(), vec![]);
    assert_eq!(extract_module("\u{feff}const a = 1;").unwrap(), vec![]);
    assert_eq!(extract_module("const ü = 'é'; /* require('./no') */ 'require(\"./no\")';").unwrap(), vec![]);
    assert!(extract_module("require('./a").is_err());
    assert!(extract_module("function (").is_err());
    let references = extract_module("const π = require('./π');").unwrap();
    assert_eq!(references.len(), 1);
    assert_eq!(references[0].specifier, "./π");
    assert_eq!(references[0].source_span, Span { start: 12, end: 27 });
}
