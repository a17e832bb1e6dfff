use rust_devtools_mcp::project::Project;
use rust_devtools_mcp::registry::{ProjectRegistry, RegistryEffect, RegistryError};

fn s(x: &str) -> String {
    x.to_string()
}

#[test]
fn add_then_get_returns_same_root() {
    let mut reg = ProjectRegistry::new();
    let project = Project::new(s("/tmp/alpha"));
    let effects = reg.add_project(project).expect("add must succeed");
    assert_eq!(effects.len(), 3);
    assert!(matches!(effects[0], RegistryEffect::WriteConfig));
    match &effects[1] {
        RegistryEffect::NotifyProjectAdded(root) => assert_eq!(root, "/tmp/alpha"),
        other => panic!("unexpected effect: {:?}", other),
    }
    match &effects[2] {
        RegistryEffect::NotifySnapshot(descs) => {
            assert_eq!(descs.len(), 1);
            assert_eq!(descs[0].root, "/tmp/alpha");
            assert_eq!(descs[0].name, "alpha");
            assert!(descs[0].is_indexing_lsp);
        }
        other => panic!("unexpected effect: {:?}", other),
    }
    let entry = reg.get_project(&s("/tmp/alpha")).expect("must be registered");
    assert_eq!(entry.project.root, "/tmp/alpha");
    assert!(entry.is_indexing_lsp);
}

#[test]
fn duplicate_add_is_refused_and_changes_nothing() {
    let mut reg = ProjectRegistry::new();
    reg.add_project(Project::new(s("/tmp/alpha"))).unwrap();
    let again = reg.add_project(Project::new(s("/tmp/alpha")));
    assert!(matches!(again, Err(RegistryError::AlreadyLoaded)));
    assert_eq!(reg.project_descriptions().len(), 1);
}

#[test]
fn remove_unregistered_returns_none_and_owes_nothing() {
    let mut reg = ProjectRegistry::new();
    reg.add_project(Project::new(s("/tmp/alpha"))).unwrap();
    let (removed, effects) = reg.remove_project(&s("/tmp/beta"));
    assert!(removed.is_none());
    assert!(effects.is_empty());
    assert_eq!(reg.project_descriptions().len(), 1);
}

#[test]
fn remove_registered_returns_entry_and_owes_persistence() {
    let mut reg = ProjectRegistry::new();
    reg.add_project(Project::new(s("/tmp/alpha"))).unwrap();
    let (removed, effects) = reg.remove_project(&s("/tmp/alpha"));
    let entry = removed.expect("entry must come back");
    assert_eq!(entry.project.root, "/tmp/alpha");
    assert_eq!(effects.len(), 2);
    assert!(matches!(effects[0], RegistryEffect::WriteConfig));
    match &effects[1] {
        RegistryEffect::NotifyProjectRemoved(root) => assert_eq!(root, "/tmp/alpha"),
        other => panic!("unexpected effect: {:?}", other),
    }
    assert!(reg.get_project(&s("/tmp/alpha")).is_none());
}

#[test]
fn get_by_path_walks_ancestors() {
    let mut reg = ProjectRegistry::new();
    reg.add_project(Project::new(s("/tmp/alpha"))).unwrap();
    let owner = reg
        .get_project_by_path(&s("/tmp/alpha/src/lib.rs"))
        .expect("path under the root must resolve");
    assert_eq!(owner.project.root, "/tmp/alpha");
    let exact = reg.get_project_by_path(&s("/tmp/alpha")).expect("the root itself resolves");
    assert_eq!(exact.project.root, "/tmp/alpha");
    assert!(reg.get_project_by_path(&s("/opt/elsewhere/file.rs")).is_none());
    assert!(reg.get_project_by_path(&s("/tmp")).is_none());
}

#[test]
fn get_by_path_prefers_the_nearest_root() {
    let mut reg = ProjectRegistry::new();
    reg.add_project(Project::new(s("/tmp/alpha"))).unwrap();
    reg.add_project(Project::new(s("/tmp/alpha/nested"))).unwrap();
    let owner = reg
        .get_project_by_path(&s("/tmp/alpha/nested/src/main.rs"))
        .expect("must resolve");
    assert_eq!(owner.project.root, "/tmp/alpha/nested");
    let outer = reg.get_project_by_path(&s("/tmp/alpha/other.rs")).expect("must resolve");
    assert_eq!(outer.project.root, "/tmp/alpha");
}

#[test]
fn find_project_by_name_matches_last_component() {
    let mut reg = ProjectRegistry::new();
    reg.add_project(Project::new(s("/tmp/alpha"))).unwrap();
    reg.add_project(Project::new(s("/work/beta"))).unwrap();
    let found = reg.find_project_by_name(&s("beta")).expect("must find");
    assert_eq!(found.project.root, "/work/beta");
    assert!(reg.find_project_by_name(&s("gamma")).is_none());
}

#[test]
fn set_indexing_flips_only_the_flag() {
    let mut reg = ProjectRegistry::new();
    reg.add_project(Project::new(s("/tmp/alpha"))).unwrap();
    assert!(reg.set_indexing(&s("/tmp/alpha"), false));
    let entry = reg.get_project(&s("/tmp/alpha")).unwrap();
    assert!(!entry.is_indexing_lsp);
    assert_eq!(entry.project.root, "/tmp/alpha");
    assert!(!reg.set_indexing(&s("/tmp/beta"), true));
}

#[test]
fn descriptions_keep_insertion_order() {
    let mut reg = ProjectRegistry::new();
    reg.add_project(Project::new(s("/tmp/alpha"))).unwrap();
    reg.add_project(Project::new(s("/work/beta"))).unwrap();
    reg.set_indexing(&s("/work/beta"), false);
    let descs = reg.project_descriptions();
    assert_eq!(descs.len(), 2);
    assert_eq!(descs[0].root, "/tmp/alpha");
    assert_eq!(descs[0].name, "alpha");
    assert!(descs[0].is_indexing_lsp);
    assert_eq!(descs[1].root, "/work/beta");
    assert_eq!(descs[1].name, "beta");
    assert!(!descs[1].is_indexing_lsp);
}

#[test]
fn to_config_mirrors_the_registry() {
    let mut reg = ProjectRegistry::new();
    reg.add_project(Project::new(s("/tmp/alpha"))).unwrap();
    reg.add_project(Project::new(s("/work/beta"))).unwrap();
    let config = reg.to_config();
    assert_eq!(config.projects.len(), 2);
    assert_eq!(config.projects[0].root, "/tmp/alpha");
    assert_eq!(config.projects[1].root, "/work/beta");
    assert!(config.projects[0].ignore_crates.is_empty());
}

#[test]
fn contains_root_is_exact() {
    let mut reg = ProjectRegistry::new();
    reg.add_project(Project::new(s("/tmp/alpha"))).unwrap();
    assert!(reg.contains_root(&s("/tmp/alpha")));
    assert!(!reg.contains_root(&s("/tmp/alpha/src")));
    assert!(!reg.contains_root(&s("/tmp")));
}
