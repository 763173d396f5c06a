use designkit::pmtool::{
    error_hint, format_resolve_error, format_resolve_error_json, resolve_project, resolve_workspace, ApiError,
    CliError, Project, ResolveError, Workspace,
};

fn ws(id: &str, name: &str) -> Workspace {
    Workspace { id: id.to_string(), name: name.to_string(), owner_email: None }
}

fn proj(id: &str, name: &str) -> Project {
    Project { id: id.to_string(), name: name.to_string(), workspace_id: "ws-1".to_string() }
}

#[test]
fn single_workspace_is_picked_without_a_hint() {
    let w = resolve_workspace(vec![ws("ws-1", "Acme Corp")], None).unwrap();
    assert_eq!(w.id, "ws-1");
}

#[test]
fn several_workspaces_without_a_hint_are_ambiguous() {
    let r = resolve_workspace(vec![ws("ws-1", "Acme Corp"), ws("ws-2", "Side Project")], None);
    assert!(matches!(r, Err(ResolveError::AmbiguousWorkspace { .. })));
}

#[test]
fn hint_matches_name_in_ascii_lower_case_or_id() {
    let list = || vec![ws("ws-1", "Acme Corp"), ws("ws-2", "Side Project")];
    assert_eq!(resolve_workspace(list(), Some("acme corp")).unwrap().id, "ws-1");
    assert_eq!(resolve_workspace(list(), Some("ws-2")).unwrap().name, "Side Project");
    match resolve_workspace(list(), Some("nonexistent")) {
        Err(ResolveError::WorkspaceNotFound { query, candidates }) => {
            assert_eq!(query, "nonexistent");
            assert_eq!(candidates.len(), 2);
        }
        other => panic!("expected WorkspaceNotFound, got {:?}", other),
    }
    assert!(matches!(resolve_workspace(vec![], None), Err(ResolveError::NoWorkspaces)));
    assert!(matches!(resolve_workspace(vec![], Some("x")), Err(ResolveError::NoWorkspaces)));
}

#[test]
fn projects_resolve_within_a_workspace() {
    let w = ws("ws-1", "Acme Corp");
    assert_eq!(resolve_project(vec![proj("p-1", "Backend")], &w, None).unwrap().id, "p-1");
    match resolve_project(vec![], &w, None) {
        Err(ResolveError::NoProjects { workspace_name }) => assert_eq!(workspace_name, "Acme Corp"),
        other => panic!("unexpected {:?}", other),
    }
    let err = resolve_project(vec![proj("p-1", "Backend"), proj("p-2", "Frontend")], &w, Some("BACKEND"));
    assert_eq!(err.unwrap().id, "p-1");
}

#[test]
fn resolve_errors_are_formatted_with_suggestions() {
    let mut a = ws("ws-1", "Acme Corp");
    a.owner_email = Some("ops@acme.test".to_string());
    let err = ResolveError::AmbiguousWorkspace { candidates: vec![a, ws("ws-2", "Side")] };
    assert_eq!(
        format_resolve_error(&err),
        "error: multiple workspaces found; specify --workspace <NAME-OR-ID>:\n  --workspace \"Acme Corp\"  # ws-1 (ops@acme.test)\n  --workspace \"Side\"  # ws-2\n\nor set defaults.workspace in ~/.config/pmtool/config.toml"
    );
    let err = ResolveError::WorkspaceNotFound { query: "x".to_string(), candidates: vec![ws("ws-1", "Acme")] };
    assert_eq!(
        format_resolve_error(&err),
        "error: no workspace matching \"x\"; available:\n  \"Acme\"  (ws-1)\n\nhint: use the exact name or ID from the list above"
    );
    let err = ResolveError::Api(ApiError::UnexpectedStatus { status: 502, body: "bad".to_string() });
    assert_eq!(format_resolve_error(&err), "error: unexpected status 502: bad");
}

#[test]
fn resolve_errors_as_json() {
    let err = ResolveError::AmbiguousWorkspace { candidates: vec![ws("1", "A"), ws("2", "B")] };
    let json = format_resolve_error_json(&err, 2);
    assert_eq!(
        json,
        "{\"code\":2,\"error\":\"multiple workspaces found; specify --workspace <NAME-OR-ID>\",\"hint\":\"pass --workspace with one of: A, B\"}"
    );
    let v: serde_json::Value = serde_json::from_str(&json).unwrap();
    assert_eq!(v["code"], 2);
    let json = format_resolve_error_json(&ResolveError::NoWorkspaces, 2);
    assert_eq!(json, "{\"code\":2,\"error\":\"no workspaces found for your account\"}");
    let json = format_resolve_error_json(
        &ResolveError::WorkspaceNotFound { query: "q\"x".to_string(), candidates: vec![] },
        2,
    );
    let v: serde_json::Value = serde_json::from_str(&json).unwrap();
    assert_eq!(v["error"], "no workspace matching \"q\\\"x\"");
    assert_eq!(v["hint"], "check workspace name or ID");
}

#[test]
fn exit_codes_follow_the_convention() {
    assert_eq!(CliError::Api(ApiError::Unauthorized).exit_code(), 3);
    assert_eq!(CliError::Resolve(ResolveError::Api(ApiError::Unauthorized)).exit_code(), 3);
    assert_eq!(CliError::Resolve(ResolveError::NoWorkspaces).exit_code(), 2);
    assert_eq!(CliError::Api(ApiError::Network("x".to_string())).exit_code(), 4);
    assert_eq!(CliError::Io(std::io::Error::new(std::io::ErrorKind::Other, "disk")).exit_code(), 4);
    assert_eq!(error_hint(&CliError::Api(ApiError::Unauthorized)), Some("run `pmtool auth login` to authenticate"));
    assert_eq!(error_hint(&CliError::Resolve(ResolveError::NoWorkspaces)), None);
    assert_eq!(CliError::Api(ApiError::Unauthorized).to_string(), "authentication failed (HTTP 401)");
}
