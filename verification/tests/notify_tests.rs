use rust_devtools_mcp::lsp::{IndexingProgress, IndexingStage, LspNotification};
use rust_devtools_mcp::notify::{apply_to_registry, ContextNotification, McpNotification};
use rust_devtools_mcp::project::Project;
use rust_devtools_mcp::registry::{ProjectDescription, ProjectRegistry};

fn indexing(project: &str, on: bool, progress: Option<IndexingProgress>) -> ContextNotification {
    ContextNotification::Lsp(LspNotification::Indexing {
        project: project.to_string(),
        is_indexing: on,
        progress,
    })
}

fn progress(
    stage: IndexingStage,
    current: Option<u32>,
    total: Option<u32>,
    pct: Option<u32>,
    krate: Option<&str>,
) -> IndexingProgress {
    IndexingProgress {
        current_crate: krate.map(|s| s.to_string()),
        current_count: current,
        total_count: total,
        stage,
        percentage: pct,
    }
}

#[test]
fn the_routing_path_is_the_project_or_the_sentinel() {
    assert_eq!(indexing("/tmp/alpha", true, None).notification_path(), "/tmp/alpha");
    let req = ContextNotification::Mcp(McpNotification::Request {
        content: "check".to_string(),
        project: "/tmp/beta".to_string(),
    });
    assert_eq!(req.notification_path(), "/tmp/beta");
    assert_eq!(
        ContextNotification::ProjectAdded("/tmp/c".to_string()).notification_path(),
        "/tmp/c"
    );
    let snapshot = ContextNotification::ProjectDescriptions(Vec::new());
    assert_eq!(snapshot.notification_path(), "project_descriptions");
}

#[test]
fn indexing_descriptions_show_stage_counts_and_percentage() {
    let with_counts = indexing(
        "/p",
        true,
        Some(progress(IndexingStage::Building, Some(1), Some(4), None, None)),
    );
    assert_eq!(with_counts.description(), "[build] Building [1/4] 25%");
    let with_crate = indexing(
        "/p",
        true,
        Some(progress(IndexingStage::Indexing, Some(2), Some(4), None, Some("serde"))),
    );
    assert_eq!(with_crate.description(), "[index] Indexing [2/4] 50% crate serde");
    let with_pct = indexing(
        "/p",
        true,
        Some(progress(IndexingStage::CachePriming, None, None, Some(80), None)),
    );
    assert_eq!(with_pct.description(), "[cache] Cache Priming 80%");
    let bare = indexing(
        "/p",
        true,
        Some(progress(IndexingStage::Unknown("warmup".to_string()), None, None, None, None)),
    );
    assert_eq!(bare.description(), "[stage] warmup");
}

#[test]
fn start_and_finish_have_fixed_descriptions() {
    assert_eq!(indexing("/p", true, None).description(), "LSP Indexing: Started");
    let done = indexing(
        "/p",
        false,
        Some(progress(IndexingStage::Indexing, None, None, None, None)),
    );
    assert_eq!(done.description(), "LSP Indexing: Finished");
}

#[test]
fn tool_calls_and_registry_events_describe_themselves() {
    let req = ContextNotification::Mcp(McpNotification::Request {
        content: "check_project".to_string(),
        project: "/p".to_string(),
    });
    assert_eq!(req.description(), "MCP Request: check_project");
    let resp = ContextNotification::Mcp(McpNotification::Response {
        content: "done".to_string(),
        project: "/p".to_string(),
    });
    assert_eq!(resp.description(), "MCP Response: done");
    assert_eq!(
        ContextNotification::ProjectAdded("/p".to_string()).description(),
        "Project Added"
    );
    assert_eq!(
        ContextNotification::ProjectRemoved("/p".to_string()).description(),
        "Project Removed"
    );
}

#[test]
fn snapshot_descriptions_count_ready_and_indexing() {
    let empty = ContextNotification::ProjectDescriptions(Vec::new());
    assert_eq!(empty.description(), "No projects loaded");
    let one_ready = ContextNotification::ProjectDescriptions(vec![ProjectDescription {
        root: "/a".to_string(),
        name: "a".to_string(),
        is_indexing_lsp: false,
    }]);
    assert_eq!(one_ready.description(), "Projects: 1 total, Ready: 1");
    let mixed = ContextNotification::ProjectDescriptions(vec![
        ProjectDescription { root: "/a".to_string(), name: "a".to_string(), is_indexing_lsp: false },
        ProjectDescription { root: "/b".to_string(), name: "b".to_string(), is_indexing_lsp: true },
    ]);
    assert_eq!(mixed.description(), "Projects: 2 total, Ready: 1, Indexing: 1");
}

#[test]
fn a_forwarded_indexing_update_sets_the_advisory_flag() {
    let mut reg = ProjectRegistry::new();
    reg.add_project(Project::new("/tmp/alpha".to_string())).unwrap();
    let done = indexing("/tmp/alpha", false, None);
    assert!(apply_to_registry(&mut reg, &done));
    assert!(!reg.get_project(&"/tmp/alpha".to_string()).unwrap().is_indexing_lsp);
    let unknown = indexing("/tmp/unknown", false, None);
    assert!(!apply_to_registry(&mut reg, &unknown));
    let other = ContextNotification::ProjectAdded("/tmp/alpha".to_string());
    assert!(!apply_to_registry(&mut reg, &other));
}
