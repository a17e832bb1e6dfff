use rust_devtools_mcp::edits::{Position, Range};
use rust_devtools_mcp::symbols::{
    calculate_symbol_score, deduplicate_symbols, resolve_symbol_in_project, ResolveError,
    SymbolCandidate,
};

fn cand(name: &str, kind: u32, path: &str) -> SymbolCandidate {
    SymbolCandidate {
        name: name.to_string(),
        kind,
        path: path.to_string(),
        range: Range {
            start: Position { line: 0, character: 0 },
            end: Position { line: 0, character: 1 },
        },
        container_name: None,
    }
}

#[test]
fn zero_candidates_are_not_found() {
    let out = resolve_symbol_in_project(&Vec::new(), None);
    assert!(matches!(out, Err(ResolveError::NotFound)));
}

#[test]
fn one_candidate_is_returned_directly() {
    let list = vec![cand("Foo", 23, "/work/src/foo.rs")];
    let got = resolve_symbol_in_project(&list, None).expect("single candidate resolves");
    assert_eq!(got.path, "/work/src/foo.rs");
}

#[test]
fn same_name_and_kind_collapse_to_the_best_location() {
    let list = vec![
        cand("Foo", 23, "/work/target/debug/gen/foo.rs"),
        cand("Foo", 23, "/work/src/foo.rs"),
    ];
    let got = resolve_symbol_in_project(&list, None).expect("deduplication resolves");
    assert_eq!(got.path, "/work/src/foo.rs");
}

#[test]
fn hint_narrowing_to_one_candidate_resolves() {
    let list = vec![cand("Foo", 23, "/work/src/a/foo.rs"), cand("Foo", 5, "/work/src/b/foo.rs")];
    let hint = "b/foo.rs".to_string();
    let got = resolve_symbol_in_project(&list, Some(&hint)).expect("hint resolves");
    assert_eq!(got.path, "/work/src/b/foo.rs");
}

#[test]
fn unresolved_ambiguity_lists_every_deduplicated_candidate() {
    let list = vec![
        cand("Foo", 23, "/work/src/a/foo.rs"),
        cand("Foo", 5, "/work/src/b/foo.rs"),
        cand("Foo", 12, "/work/src/c/foo.rs"),
    ];
    match resolve_symbol_in_project(&list, None) {
        Err(ResolveError::Ambiguous(cands)) => {
            assert_eq!(cands.len(), 3);
            assert_eq!(cands[0].path, "/work/src/a/foo.rs");
            assert_eq!(cands[1].path, "/work/src/b/foo.rs");
            assert_eq!(cands[2].path, "/work/src/c/foo.rs");
        }
        other => panic!("expected ambiguity, got {:?}", other),
    }
}

#[test]
fn hint_that_narrows_to_none_stays_ambiguous() {
    let list = vec![cand("Foo", 23, "/work/src/a/foo.rs"), cand("Foo", 5, "/work/src/b/foo.rs")];
    let hint = "elsewhere.rs".to_string();
    match resolve_symbol_in_project(&list, Some(&hint)) {
        Err(ResolveError::Ambiguous(cands)) => assert_eq!(cands.len(), 2),
        other => panic!("expected ambiguity, got {:?}", other),
    }
}

#[test]
fn hint_that_matches_several_stays_ambiguous() {
    let list = vec![cand("Foo", 23, "/work/src/a/foo.rs"), cand("Foo", 5, "/work/src/b/foo.rs")];
    let hint = "foo.rs".to_string();
    match resolve_symbol_in_project(&list, Some(&hint)) {
        Err(ResolveError::Ambiguous(cands)) => assert_eq!(cands.len(), 2),
        other => panic!("expected ambiguity, got {:?}", other),
    }
}

#[test]
fn score_adds_up_exactly() {
    let c = cand("Foo", 23, "/work/src/lib.rs");
    assert_eq!(calculate_symbol_score(&c), 100 + 50 + 20 - 6 + 30);
    let test_file = cand("Foo", 23, "/work/tests/foo_test.rs");
    assert_eq!(calculate_symbol_score(&test_file), 100 - 30 + 20 - 6);
    let generated = cand("Foo", 23, "/work/target/gen.rs");
    assert_eq!(calculate_symbol_score(&generated), 100 - 40 + 20 - 6);
}

#[test]
fn scoring_folds_case() {
    let upper = cand("Foo", 23, "/WORK/SRC/LIB.RS");
    let lower = cand("Foo", 23, "/work/src/lib.rs");
    assert_eq!(calculate_symbol_score(&upper), calculate_symbol_score(&lower));
}

#[test]
fn dedup_keeps_first_seen_on_ties_and_group_order() {
    let list = vec![
        cand("Foo", 23, "/work/src/first.rs"),
        cand("Bar", 23, "/work/src/bar.rs"),
        cand("Foo", 23, "/work/src/second.rs"),
    ];
    let out = deduplicate_symbols(&list);
    assert_eq!(out.len(), 2);
    assert_eq!(out[0].name, "Foo");
    assert_eq!(out[0].path, "/work/src/first.rs");
    assert_eq!(out[1].name, "Bar");
}

#[test]
fn dedup_distinguishes_kinds() {
    let list = vec![cand("Foo", 23, "/work/src/a.rs"), cand("Foo", 5, "/work/src/b.rs")];
    let out = deduplicate_symbols(&list);
    assert_eq!(out.len(), 2);
}
