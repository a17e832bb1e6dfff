use rust_devtools_mcp::lsp::{
    parse_progress, stage_of_token, ClientState, IndexingStage, LspNotification, ProgressToken,
    WorkDoneKind,
};

fn begin(title: &str) -> WorkDoneKind {
    WorkDoneKind::Begin { title: title.to_string(), percentage: None }
}

fn report(message: &str) -> WorkDoneKind {
    WorkDoneKind::Report { message: Some(message.to_string()), percentage: None }
}

fn token(name: &str) -> ProgressToken {
    ProgressToken::Name(name.to_string())
}

fn flag_of(n: &LspNotification) -> bool {
    match n {
        LspNotification::Indexing { is_indexing, .. } => *is_indexing,
    }
}

#[test]
fn one_cycle_lowers_the_flag_exactly_once() {
    let mut state = ClientState::new("/tmp/alpha".to_string());
    let tk = token("rustAnalyzer/Indexing");
    let events = vec![
        begin("indexing"),
        report("indexing my-crate 1/4"),
        report("indexing my-crate 2/4"),
        WorkDoneKind::End,
    ];
    let mut lowered = 0;
    let mut raised = 0;
    let mut signals = 0;
    for event in &events {
        let (note, signal) = state.progress(&tk, event);
        if flag_of(&note) {
            raised += 1;
        } else {
            lowered += 1;
        }
        if signal {
            signals += 1;
        }
    }
    assert_eq!(lowered, 1);
    assert_eq!(raised, events.len() - 1);
    assert_eq!(signals, 1);
}

#[test]
fn the_completion_signal_fires_only_on_the_first_end() {
    let mut state = ClientState::new("/tmp/alpha".to_string());
    let tk = token("rustAnalyzer/Building");
    let (_, first) = state.progress(&tk, &WorkDoneKind::End);
    assert!(first);
    let (_, again) = state.progress(&tk, &begin("building"));
    assert!(!again);
    let (_, second_end) = state.progress(&tk, &WorkDoneKind::End);
    assert!(!second_end);
}

#[test]
fn every_update_names_the_project() {
    let mut state = ClientState::new("/tmp/alpha".to_string());
    let (note, _) = state.progress(&token("rustAnalyzer/Indexing"), &begin("indexing"));
    match note {
        LspNotification::Indexing { project, is_indexing, progress } => {
            assert_eq!(project, "/tmp/alpha");
            assert!(is_indexing);
            assert!(progress.is_some());
        }
    }
}

#[test]
fn known_tokens_map_by_exact_identity() {
    assert!(matches!(
        stage_of_token(&"rustAnalyzer/Building".to_string()),
        IndexingStage::Building
    ));
    assert!(matches!(
        stage_of_token(&"rustAnalyzer/cachePriming".to_string()),
        IndexingStage::CachePriming
    ));
    assert!(matches!(
        stage_of_token(&"rustAnalyzer/Indexing".to_string()),
        IndexingStage::Indexing
    ));
    match stage_of_token(&"rustAnalyzer/IndexingExtra".to_string()) {
        IndexingStage::Unknown(t) => assert_eq!(t, "rustAnalyzer/IndexingExtra"),
        other => panic!("unexpected stage: {:?}", other),
    }
}

#[test]
fn numeric_tokens_become_spelled_out_opaque_stages() {
    let p = parse_progress(&ProgressToken::Number(42), &begin("whatever"));
    match p.stage {
        IndexingStage::Unknown(t) => assert_eq!(t, "numeric_42"),
        other => panic!("unexpected stage: {:?}", other),
    }
    let negative = parse_progress(&ProgressToken::Number(-7), &begin("whatever"));
    match negative.stage {
        IndexingStage::Unknown(t) => assert_eq!(t, "numeric_-7"),
        other => panic!("unexpected stage: {:?}", other),
    }
}

#[test]
fn crate_name_and_counts_are_extracted_from_the_message() {
    let p = parse_progress(&token("rustAnalyzer/Indexing"), &report("indexing my-crate 7/9"));
    assert_eq!(p.current_crate.as_deref(), Some("my-crate"));
    assert_eq!(p.current_count, Some(7));
    assert_eq!(p.total_count, Some(9));
}

#[test]
fn extraction_failure_leaves_the_fields_empty() {
    let p = parse_progress(&token("rustAnalyzer/Indexing"), &report("no pattern here"));
    assert!(p.current_crate.is_none());
    assert!(p.current_count.is_none());
    assert!(p.total_count.is_none());
}

#[test]
fn the_begin_title_is_searched_like_a_report_message() {
    let p = parse_progress(&token("rustAnalyzer/Building"), &begin("building proc-macros 3/10"));
    assert_eq!(p.current_crate.as_deref(), Some("proc-macros"));
    assert_eq!(p.current_count, Some(3));
    assert_eq!(p.total_count, Some(10));
}

#[test]
fn oversized_counts_are_dropped_together() {
    let p = parse_progress(
        &token("rustAnalyzer/Indexing"),
        &report("indexing x 5000000000/2"),
    );
    assert!(p.current_count.is_none());
    assert!(p.total_count.is_none());
}

#[test]
fn the_percentage_is_carried_through() {
    let p = parse_progress(
        &token("rustAnalyzer/Indexing"),
        &WorkDoneKind::Report { message: None, percentage: Some(40) },
    );
    assert_eq!(p.percentage, Some(40));
    let e = parse_progress(&token("rustAnalyzer/Indexing"), &WorkDoneKind::End);
    assert!(e.percentage.is_none());
}
