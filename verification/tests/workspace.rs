use designkit::workspace::{resolve_project, resolve_workspace, Project, ResolveError, Workspace};

fn ws(id: &str, name: &str) -> Workspace {
    Workspace { id: id.to_string(), name: name.to_string() }
}

fn proj(id: &str, name: &str, ws_id: &str) -> Project {
    Project { id: id.to_string(), name: name.to_string(), workspace_id: ws_id.to_string() }
}

#[test]
fn error_message_snapshot_multiple_workspaces() {
    let err = ResolveError::MultipleWorkspaces(vec![
        ws("a1b2c3d4", "Acme Corp"),
        ws("e5f6g7h8", "Side Project"),
        ws("i9j0k1l2", "Acme Corp"),
    ]);
    let msg = err.to_string();
    println!("--- error output ---\n{}\n--- end ---", msg);
    assert!(msg.contains("3 workspaces"));
    assert!(msg.contains("NOTION_WORKSPACE"));
}

#[test]
fn error_message_snapshot_not_found() {
    let err = ResolveError::WorkspaceNotFound {
        query: "typo-name".to_string(),
        available: vec![ws("a1b2c3d4", "Acme Corp"), ws("e5f6g7h8", "Side Project")],
    };
    let msg = err.to_string();
    println!("--- error output ---\n{}\n--- end ---", msg);
    assert!(msg.contains("\"typo-name\" not found"));
    assert!(msg.contains("Acme Corp"));
}

#[test]
fn workspace_table_is_aligned() {
    let err = ResolveError::MultipleWorkspaces(vec![ws("a1", "Acme Corp"), ws("b2", "X")]);
    assert_eq!(
        err.to_string(),
        "error: --workspace is required (you belong to 2 workspaces)\n\n  NAME       ID\n  ----       --\n  Acme Corp  a1\n  X          b2\n\nPass --workspace <ID or NAME> to select one.\nTip: if you always use the same workspace, set NOTION_WORKSPACE in your environment."
    );
}

#[test]
fn single_workspace_auto_resolves_from_list() {
    let w = resolve_workspace(vec![ws("ws-1", "Acme Corp")], None).unwrap();
    assert_eq!(w.id, "ws-1");
}

#[test]
fn several_workspaces_without_flag_list_them_all() {
    let err = resolve_workspace(vec![ws("ws-1", "Acme Corp"), ws("ws-2", "Side Project")], None).unwrap_err();
    let msg = err.to_string();
    assert!(msg.contains("--workspace is required"));
    assert!(msg.contains("Acme Corp"));
    assert!(msg.contains("Side Project"));
    assert!(msg.contains("ws-1"));
    assert!(msg.contains("ws-2"));
}

#[test]
fn workspace_by_id_then_by_name() {
    let list = || vec![ws("ws-1", "Acme Corp"), ws("ws-2", "Side Project")];
    assert_eq!(resolve_workspace(list(), Some("ws-2")).unwrap().name, "Side Project");
    assert_eq!(resolve_workspace(list(), Some("acme corp")).unwrap().id, "ws-1");
    let err = resolve_workspace(vec![ws("ws-1", "Acme Corp")], Some("Nope")).unwrap_err();
    let msg = err.to_string();
    assert!(msg.contains("\"Nope\" not found"));
    assert!(msg.contains("Acme Corp"));
    assert!(resolve_workspace(vec![], None).unwrap_err().to_string().contains("no workspaces found"));
}

#[test]
fn duplicate_names_are_ambiguous() {
    let err = resolve_workspace(vec![ws("a", "Dup"), ws("b", "dup"), ws("c", "Other")], Some("DUP")).unwrap_err();
    match err {
        ResolveError::AmbiguousWorkspace { query, matches } => {
            assert_eq!(query, "DUP");
            assert_eq!(matches.len(), 2);
            assert_eq!(matches[1].id, "b");
        }
        other => panic!("unexpected {:?}", other),
    }
}

#[test]
fn projects_resolve_by_the_same_rules() {
    let w = ws("ws-1", "Acme Corp");
    assert_eq!(resolve_project(vec![proj("p-1", "Backend", "ws-1")], &w, None).unwrap().id, "p-1");
    let err = resolve_project(vec![proj("p-1", "Backend", "ws-1"), proj("p-2", "Frontend", "ws-1")], &w, None)
        .unwrap_err();
    let msg = err.to_string();
    assert!(msg.contains("--project is required"));
    assert!(msg.contains("Backend"));
    assert!(msg.contains("Frontend"));
    let err = resolve_project(vec![], &w, None).unwrap_err();
    assert_eq!(err.to_string(), "error: workspace \"Acme Corp\" (ws-1) has no projects\n\nHint: create a project first.");
    let err = resolve_project(vec![], &w, Some("x")).unwrap_err();
    assert_eq!(
        err.to_string(),
        "error: project \"x\" not found in workspace \"Acme Corp\"\n\nThis workspace has no projects."
    );
    assert_eq!(ResolveError::Api("down".to_string()).to_string(), "error: API call failed: down");
}
