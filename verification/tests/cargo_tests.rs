use rust_devtools_mcp::cargo::{
    backtrace_env_value, cargo_check_args, cargo_test_args, check_rendered, check_structured,
    partition_output, primary_span, span_to_range, split_nonempty_lines, CargoMessage,
    CargoRemote, CompilerMessage, CompilerMessageSpan, ParsedLine,
};
use rust_devtools_mcp::project::Project;

fn span(file: &str, line: usize, primary: bool) -> CompilerMessageSpan {
    CompilerMessageSpan {
        column_start: 5,
        column_end: 9,
        file_name: file.to_string(),
        line_start: line,
        line_end: line,
        is_primary: primary,
    }
}

fn diag(level: &str, rendered: &str, spans: Vec<CompilerMessageSpan>) -> CompilerMessage {
    CompilerMessage { rendered: rendered.to_string(), level: level.to_string(), spans }
}

#[test]
fn check_keeps_exactly_the_spanned_error() {
    let lines = vec![
        ParsedLine::Message(CargoMessage::CompilerMessage {
            message: diag("error", "boom", vec![span("src/lib.rs", 3, true)]),
        }),
        ParsedLine::Message(CargoMessage::CompilerMessage {
            message: diag("warning", "meh", Vec::new()),
        }),
        ParsedLine::Message(CargoMessage::BuildFinished { success: false }),
        ParsedLine::Plain("test output line 1".to_string()),
        ParsedLine::Plain("test output line 2".to_string()),
    ];
    let (messages, plain) = partition_output(lines);
    assert_eq!(messages.len(), 3);
    assert_eq!(plain, vec!["test output line 1".to_string(), "test output line 2".to_string()]);
    let diagnostics = check_structured(messages);
    assert_eq!(diagnostics.len(), 1);
    assert_eq!(diagnostics[0].rendered, "boom");
    assert_eq!(diagnostics[0].level, "error");
}

#[test]
fn warnings_with_spans_are_kept_and_other_levels_dropped() {
    let messages = vec![
        CargoMessage::CompilerMessage {
            message: diag("warning", "lint", vec![span("src/a.rs", 1, true)]),
        },
        CargoMessage::CompilerMessage {
            message: diag("note", "fyi", vec![span("src/a.rs", 2, true)]),
        },
        CargoMessage::CompilerArtifact,
    ];
    let diagnostics = check_structured(messages);
    assert_eq!(diagnostics.len(), 1);
    assert_eq!(diagnostics[0].level, "warning");
}

#[test]
fn rendered_output_is_the_rendered_text_of_each_diagnostic() {
    let messages = vec![
        CargoMessage::CompilerMessage {
            message: diag("error", "first", vec![span("src/a.rs", 1, true)]),
        },
        CargoMessage::CompilerMessage {
            message: diag("error", "second", vec![span("src/b.rs", 2, false)]),
        },
    ];
    let rendered = check_rendered(messages);
    assert_eq!(rendered, vec!["first".to_string(), "second".to_string()]);
}

#[test]
fn primary_span_takes_the_first_primary() {
    let m = diag(
        "error",
        "x",
        vec![span("a.rs", 1, false), span("b.rs", 2, true), span("c.rs", 3, true)],
    );
    let sp = primary_span(&m).expect("a primary span exists");
    assert_eq!(sp.file_name, "b.rs");
    let none = diag("error", "y", vec![span("a.rs", 1, false)]);
    assert!(primary_span(&none).is_none());
}

#[test]
fn span_to_range_moves_to_zero_based_and_saturates() {
    let sp = span("a.rs", 3, true);
    let r = span_to_range(&sp);
    assert_eq!(r.start.line, 2);
    assert_eq!(r.start.character, 4);
    let zero = CompilerMessageSpan {
        column_start: 0,
        column_end: 0,
        file_name: "a.rs".to_string(),
        line_start: 0,
        line_end: 0,
        is_primary: true,
    };
    let rz = span_to_range(&zero);
    assert_eq!(rz.start.line, 0);
    assert_eq!(rz.start.character, 0);
}

#[test]
fn split_drops_empty_lines_and_strips_carriage_returns() {
    let lines = split_nonempty_lines("a\nb\n\nc\r\n");
    assert_eq!(lines, vec!["a".to_string(), "b".to_string(), "c".to_string()]);
    assert!(split_nonempty_lines("").is_empty());
    assert_eq!(split_nonempty_lines("only"), vec!["only".to_string()]);
}

#[test]
fn invocation_shapes_match_the_tool() {
    assert_eq!(cargo_check_args(), vec!["check".to_string(), "--message-format=json".to_string()]);
    assert_eq!(
        cargo_test_args(None),
        vec!["test".to_string(), "--message-format=json".to_string()]
    );
    let name = "my_test".to_string();
    assert_eq!(
        cargo_test_args(Some(&name)),
        vec![
            "test".to_string(),
            "--message-format=json".to_string(),
            "--".to_string(),
            "--nocapture".to_string(),
            "my_test".to_string(),
        ]
    );
    assert_eq!(backtrace_env_value(true), "full");
    assert_eq!(backtrace_env_value(false), "0");
}

#[test]
fn runner_binds_its_project() {
    let remote = CargoRemote::new(Project::new("/tmp/alpha".to_string()));
    assert_eq!(remote.repository.root, "/tmp/alpha");
}
