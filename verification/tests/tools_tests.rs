use rust_devtools_mcp::project::{Project, TransportType, UriError};
use rust_devtools_mcp::tools::{
    address_information, beautify_path, diagnostic_id, format_marked_string, generate_action_id,
    get_file_lines, mcp_configuration, select_project_name, MarkedText,
};

#[test]
fn line_windows_select_and_clamp() {
    let content = "l0\nl1\nl2\nl3";
    assert_eq!(get_file_lines(content, 1, 2, 0, 0), Some("l1\nl2".to_string()));
    assert_eq!(get_file_lines(content, 1, 1, 1, 1), Some("l0\nl1\nl2".to_string()));
    assert_eq!(get_file_lines(content, 2, 9, 0, 200), Some("l2\nl3".to_string()));
    assert_eq!(get_file_lines(content, 0, 0, 5, 0), Some("l0".to_string()));
}

#[test]
fn an_empty_window_or_content_is_handled() {
    assert_eq!(get_file_lines("", 0, 5, 0, 0), Some(String::new()));
    assert_eq!(get_file_lines("l0\nl1", 3, 0, 0, 0), None);
}

#[test]
fn paths_display_shortened_and_relative() {
    assert_eq!(beautify_path("/a/b", None), "dir /a/b");
    let cwd = "/a".to_string();
    assert_eq!(beautify_path("/a/b", Some(&cwd)), "dir ./b");
    assert_eq!(beautify_path("/elsewhere/b", Some(&cwd)), "dir /elsewhere/b");
    let long = "/very/long/path/that/exceeds/fifty/characters/for/sure/name";
    assert_eq!(beautify_path(long, None), "dir sure/name");
    assert_eq!(beautify_path("C:\\x\\y", None), "dir C:/x/y");
}

#[test]
fn the_working_project_is_chosen_in_order() {
    let explicit = Some("a".to_string());
    let last = Some("b".to_string());
    let first = Some("c".to_string());
    assert_eq!(
        select_project_name(explicit.clone(), last.clone(), first.clone()),
        Some("a".to_string())
    );
    assert_eq!(select_project_name(None, last.clone(), first.clone()), Some("b".to_string()));
    assert_eq!(select_project_name(None, None, first), Some("c".to_string()));
    assert_eq!(select_project_name(None, None, None), None);
}

#[test]
fn action_and_diagnostic_identifiers_flatten_their_targets() {
    assert_eq!(generate_action_id("rename", "a b::c"), "rename_a_b_c");
    assert_eq!(
        diagnostic_id("src\\x/y.rs", 3, 7),
        "diagnostic_src_x_y.rs_3_line_7"
    );
}

#[test]
fn hover_fragments_render_plain_or_fenced() {
    assert_eq!(format_marked_string(&MarkedText::Plain("hello".to_string())), "hello");
    let fenced = MarkedText::WithLanguage {
        language: "rust".to_string(),
        value: "fn main() {}".to_string(),
    };
    assert_eq!(format_marked_string(&fenced), "```rust```\nfn main() {}");
}

#[test]
fn transports_report_their_addresses() {
    let (host, port) = address_information(&TransportType::Stdio);
    assert_eq!(host, "stdio");
    assert_eq!(port, 0);
    let sse = TransportType::Sse { host: "127.0.0.1".to_string(), port: 4000 };
    let (h, p) = address_information(&sse);
    assert_eq!(h, "127.0.0.1");
    assert_eq!(p, 4000);
}

#[test]
fn the_client_configuration_fills_in_the_address() {
    let sse = TransportType::Sse { host: "127.0.0.1".to_string(), port: 4000 };
    let cfg = mcp_configuration(&sse);
    assert!(cfg.contains("\"url\": \"http://127.0.0.1:4000/sse\""));
    assert!(!cfg.contains("{{HOST}}"));
    assert!(!cfg.contains("{{PORT}}"));
    let stdio_cfg = mcp_configuration(&TransportType::Stdio);
    assert!(stdio_cfg.contains("\"command\": \"rust-devtools-mcp\""));
}

#[test]
fn project_uris_need_absolute_roots() {
    let p = Project::new("/tmp/alpha".to_string());
    let uri = p.uri().expect("absolute roots have URIs");
    assert_eq!(uri, url::Url::from_file_path("/tmp/alpha").unwrap());
    let rel = Project::new("alpha".to_string());
    assert_eq!(rel.uri(), Err(UriError::NotAbsolute));
}

#[test]
fn file_uris_join_under_the_root() {
    let p = Project::new("/tmp/alpha".to_string());
    let uri = p.file_uri(&"src/lib.rs".to_string()).expect("joined path is absolute");
    assert_eq!(uri, url::Url::from_file_path("/tmp/alpha/src/lib.rs").unwrap());
    let ignore = p.ignore_crates();
    assert!(ignore.is_empty());
    assert_eq!(p.root().as_str(), "/tmp/alpha");
}
