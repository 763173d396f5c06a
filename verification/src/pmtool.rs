//! Resolution of the workspace and project a command works on, for a
//! project-management CLI, and the messages and exit codes of its errors.
use vstd::prelude::*;
use crate::text::{debug_quote, quoted, owned, push_str, push_signed, signed_decimal, push_decimal, decimal, ascii_lower};
use crate::sys::{describe_io_error, write_stderr_line};
use crate::json::{json_string, to_json_string};
use crate::workspace::{Listed, entries, entries_at, id_position, name_hits, pick, Pick, fold_case};

verus! {

/// A workspace returned by the project management API.
#[derive(Debug)]
pub struct Workspace {
    pub id: String,
    pub name: String,
    /// The owner's email, if available.
    pub owner_email: Option<String>,
}

/// A project within a workspace.
#[derive(Debug)]
pub struct Project {
    pub id: String,
    pub name: String,
    pub workspace_id: String,
}

impl Clone for Workspace {
    fn clone(&self) -> (r: Self)
        ensures
            r.id@ == self.id@,
            r.name@ == self.name@,
            r.owner_email is Some <==> self.owner_email is Some,
            r.owner_email matches Some(e) ==> e@ == self.owner_email->Some_0@,
    {
        let owner_email = match &self.owner_email {
            Some(e) => Some(e.clone()),
            None => None,
        };
        Workspace { id: self.id.clone(), name: self.name.clone(), owner_email }
    }
}

impl Clone for Project {
    fn clone(&self) -> (r: Self)
        ensures
            r.id@ == self.id@,
            r.name@ == self.name@,
            r.workspace_id@ == self.workspace_id@,
    {
        Project { id: self.id.clone(), name: self.name.clone(), workspace_id: self.workspace_id.clone() }
    }
}

impl Listed for Workspace {
    open spec fn spec_name(&self) -> Seq<char> {
        self.name@
    }

    open spec fn spec_id(&self) -> Seq<char> {
        self.id@
    }

    fn name_str(&self) -> (r: &str) {
        self.name.as_str()
    }

    fn id_str(&self) -> (r: &str) {
        self.id.as_str()
    }
}

impl Listed for Project {
    open spec fn spec_name(&self) -> Seq<char> {
        self.name@
    }

    open spec fn spec_id(&self) -> Seq<char> {
        self.id@
    }

    fn name_str(&self) -> (r: &str) {
        self.name.as_str()
    }

    fn id_str(&self) -> (r: &str) {
        self.id.as_str()
    }
}

/// Upstream API errors.
#[derive(Debug)]
pub enum ApiError {
    Network(String),
    Unauthorized,
    UnexpectedStatus { status: u16, body: String },
}

/// Errors that can occur while resolving the workspace and project.
#[derive(Debug)]
pub enum ResolveError {
    NoWorkspaces,
    AmbiguousWorkspace { candidates: Vec<Workspace> },
    WorkspaceNotFound { query: String, candidates: Vec<Workspace> },
    NoProjects { workspace_name: String },
    AmbiguousProject { workspace_name: String, candidates: Vec<Project> },
    ProjectNotFound { query: String, workspace_name: String, candidates: Vec<Project> },
    Api(ApiError),
}

/// The top-level CLI error.
#[derive(Debug)]
pub enum CliError {
    Resolve(ResolveError),
    Api(ApiError),
    Io(std::io::Error),
}

/// The message of an API error.
pub open spec fn api_message(e: ApiError) -> Seq<char> {
    match e {
        ApiError::Network(m) => "network error: "@ + m@,
        ApiError::Unauthorized => "authentication failed (HTTP 401)"@,
        ApiError::UnexpectedStatus { status, body } => "unexpected status "@ + decimal(status as nat) + ": "@ + body@,
    }
}

impl ApiError {
    pub fn to_string(&self) -> (r: String)
        ensures
            r@ == api_message(*self),
    {
        let mut s = String::new();
        match self {
            ApiError::Network(m) => {
                push_str(&mut s, "network error: ");
                push_str(&mut s, m.as_str());
            },
            ApiError::Unauthorized => {
                push_str(&mut s, "authentication failed (HTTP 401)");
            },
            ApiError::UnexpectedStatus { status, body } => {
                push_str(&mut s, "unexpected status ");
                push_decimal(&mut s, *status as u64);
                push_str(&mut s, ": ");
                push_str(&mut s, body.as_str());
            },
        }
        s
    }
}

/// The one-line message of a resolution error.
pub open spec fn resolve_message(e: ResolveError) -> Seq<char> {
    match e {
        ResolveError::NoWorkspaces => "no workspaces found for your account"@,
        ResolveError::AmbiguousWorkspace { .. } => "multiple workspaces found; specify --workspace <NAME-OR-ID>"@,
        ResolveError::WorkspaceNotFound { query, .. } => "no workspace matching "@ + quoted(query@),
        ResolveError::NoProjects { workspace_name } => "no projects found in workspace "@ + quoted(workspace_name@),
        ResolveError::AmbiguousProject { workspace_name, .. } => "multiple projects found in workspace "@
            + quoted(workspace_name@) + "; specify --project <NAME-OR-ID>"@,
        ResolveError::ProjectNotFound { query, workspace_name, .. } => "no project matching "@ + quoted(query@)
            + " in workspace "@ + quoted(workspace_name@),
        ResolveError::Api(a) => "API request failed: "@ + api_message(a),
    }
}

impl ResolveError {
    pub fn to_string(&self) -> (r: String)
        ensures
            r@ == resolve_message(*self),
    {
        let mut s = String::new();
        match self {
            ResolveError::NoWorkspaces => {
                push_str(&mut s, "no workspaces found for your account");
            },
            ResolveError::AmbiguousWorkspace { .. } => {
                push_str(&mut s, "multiple workspaces found; specify --workspace <NAME-OR-ID>");
            },
            ResolveError::WorkspaceNotFound { query, .. } => {
                push_str(&mut s, "no workspace matching ");
                let q = debug_quote(query.as_str());
                push_str(&mut s, q.as_str());
            },
            ResolveError::NoProjects { workspace_name } => {
                push_str(&mut s, "no projects found in workspace ");
                let q = debug_quote(workspace_name.as_str());
                push_str(&mut s, q.as_str());
            },
            ResolveError::AmbiguousProject { workspace_name, .. } => {
                push_str(&mut s, "multiple projects found in workspace ");
                let q = debug_quote(workspace_name.as_str());
                push_str(&mut s, q.as_str());
                push_str(&mut s, "; specify --project <NAME-OR-ID>");
            },
            ResolveError::ProjectNotFound { query, workspace_name, .. } => {
                push_str(&mut s, "no project matching ");
                let q = debug_quote(query.as_str());
                push_str(&mut s, q.as_str());
                push_str(&mut s, " in workspace ");
                let w = debug_quote(workspace_name.as_str());
                push_str(&mut s, w.as_str());
            },
            ResolveError::Api(a) => {
                push_str(&mut s, "API request failed: ");
                let m = a.to_string();
                push_str(&mut s, m.as_str());
            },
        }
        s
    }
}

/// The exit code of an error: 2 for usage, 3 for authentication, 4 for
/// upstream and I/O failures.
pub open spec fn spec_exit_code(e: CliError) -> i32 {
    match e {
        CliError::Resolve(ResolveError::Api(ApiError::Unauthorized)) => 3,
        CliError::Api(ApiError::Unauthorized) => 3,
        CliError::Resolve(ResolveError::Api(_)) => 4,
        CliError::Resolve(_) => 2,
        CliError::Api(_) => 4,
        CliError::Io(_) => 4,
    }
}

impl CliError {
    pub fn exit_code(&self) -> (r: i32)
        ensures
            r == spec_exit_code(*self),
    {
        match self {
            CliError::Resolve(ResolveError::Api(ApiError::Unauthorized)) => 3,
            CliError::Api(ApiError::Unauthorized) => 3,
            CliError::Resolve(
                ResolveError::AmbiguousWorkspace { .. }
                | ResolveError::WorkspaceNotFound { .. }
                | ResolveError::AmbiguousProject { .. }
                | ResolveError::ProjectNotFound { .. }
                | ResolveError::NoWorkspaces
                | ResolveError::NoProjects { .. },
            ) => 2,
            CliError::Resolve(ResolveError::Api(_)) | CliError::Api(_) => 4,
            CliError::Io(_) => 4,
        }
    }

    /// The message of the error. For an I/O error it is the operating
    /// system's description, of which nothing is stated.
    pub fn to_string(&self) -> (r: String)
        ensures
            *self matches CliError::Resolve(e) ==> r@ == resolve_message(e),
            *self matches CliError::Api(e) ==> r@ == api_message(e),
    {
        match self {
            CliError::Resolve(e) => e.to_string(),
            CliError::Api(e) => e.to_string(),
            CliError::Io(e) => describe_io_error(e),
        }
    }
}

/// The suggestion shown under an error, if any.
pub open spec fn spec_error_hint(e: CliError) -> Option<Seq<char>> {
    match e {
        CliError::Api(ApiError::Unauthorized) => Some("run `pmtool auth login` to authenticate"@),
        CliError::Api(ApiError::Network(_)) => Some("check your internet connection"@),
        _ => None,
    }
}

/// The suggestion shown under an error that is not a resolution error.
pub fn error_hint(e: &CliError) -> (r: Option<&'static str>)
    ensures
        r is Some <==> spec_error_hint(*e) is Some,
        r matches Some(h) ==> h@ == spec_error_hint(*e)->Some_0,
{
    match e {
        CliError::Api(ApiError::Unauthorized) => Some("run `pmtool auth login` to authenticate"),
        CliError::Api(ApiError::Network(_)) => Some("check your internet connection"),
        _ => None,
    }
}

/// One line per workspace: `  --workspace <name:?>  # <id>` and the owner in
/// parentheses when known.
pub open spec fn workspace_flag_lines(ws: Seq<Workspace>) -> Seq<char>
    decreases ws.len(),
{
    if ws.len() == 0 {
        Seq::empty()
    } else {
        let w = ws.last();
        workspace_flag_lines(ws.drop_last()) + "  --workspace "@ + quoted(w.name@) + "  # "@ + w.id@
            + match w.owner_email {
            Some(e) => " ("@ + e@ + ")"@,
            None => Seq::empty(),
        } + "\n"@
    }
}

/// One line per candidate: `  <name:?>  (<id>)`.
pub open spec fn candidate_lines<T: Listed>(items: Seq<T>) -> Seq<char>
    decreases items.len(),
{
    if items.len() == 0 {
        Seq::empty()
    } else {
        candidate_lines(items.drop_last()) + "  "@ + quoted(items.last().spec_name()) + "  ("@
            + items.last().spec_id() + ")\n"@
    }
}

/// One line per project: `  --project <name:?>  # <id>`.
pub open spec fn project_flag_lines(ps: Seq<Project>) -> Seq<char>
    decreases ps.len(),
{
    if ps.len() == 0 {
        Seq::empty()
    } else {
        project_flag_lines(ps.drop_last()) + "  --project "@ + quoted(ps.last().name@) + "  # "@ + ps.last().id@ + "\n"@
    }
}

/// The human-readable text of a resolution error, with copy-pasteable
/// suggestions.
pub open spec fn resolve_error_text(err: ResolveError) -> Seq<char> {
    match err {
        ResolveError::NoWorkspaces => "error: no workspaces found for your account\n\nhint: check that your account has access to at least one workspace"@,
        ResolveError::AmbiguousWorkspace { candidates } => "error: multiple workspaces found; specify --workspace <NAME-OR-ID>:\n"@
            + workspace_flag_lines(candidates@) + "\nor set defaults.workspace in ~/.config/pmtool/config.toml"@,
        ResolveError::WorkspaceNotFound { query, candidates } => "error: no workspace matching "@ + quoted(query@)
            + "; available:\n"@ + candidate_lines(candidates@) + "\nhint: use the exact name or ID from the list above"@,
        ResolveError::NoProjects { workspace_name } => "error: no projects found in workspace "@ + quoted(workspace_name@)
            + "\n\nhint: create a project first, or check --workspace"@,
        ResolveError::AmbiguousProject { workspace_name, candidates } => "error: multiple projects in workspace "@
            + quoted(workspace_name@) + "; specify --project <NAME-OR-ID>:\n"@ + project_flag_lines(candidates@)
            + "\nor set defaults.project in ~/.config/pmtool/config.toml"@,
        ResolveError::ProjectNotFound { query, workspace_name, candidates } => "error: no project matching "@
            + quoted(query@) + " in workspace "@ + quoted(workspace_name@) + "; available:\n"@ + candidate_lines(candidates@),
        ResolveError::Api(a) => "error: "@ + api_message(a),
    }
}

fn push_workspace_flags(s: &mut String, ws: &Vec<Workspace>)
    ensures
        final(s)@ == old(s)@ + workspace_flag_lines(ws@),
{
    let ghost head = s@;
    let mut i: usize = 0;
    while i < ws.len()
        invariant
            0 <= i <= ws@.len(),
            s@ == head + workspace_flag_lines(ws@.take(i as int)),
        decreases ws@.len() - i,
    {
        proof {
            assert(ws@.take(i + 1).drop_last() == ws@.take(i as int));
        }
        push_str(s, "  --workspace ");
        let q = debug_quote(ws[i].name.as_str());
        push_str(s, q.as_str());
        push_str(s, "  # ");
        push_str(s, ws[i].id.as_str());
        match &ws[i].owner_email {
            Some(e) => {
                push_str(s, " (");
                push_str(s, e.as_str());
                push_str(s, ")");
            },
            None => {},
        }
        push_str(s, "\n");
        i = i + 1;
    }
    proof {
        assert(ws@.take(i as int) == ws@);
    }
}

fn push_candidates<T: Listed>(s: &mut String, items: &[T])
    ensures
        final(s)@ == old(s)@ + candidate_lines(items@),
{
    let ghost head = s@;
    let mut i: usize = 0;
    while i < items.len()
        invariant
            0 <= i <= items@.len(),
            s@ == head + candidate_lines(items@.take(i as int)),
        decreases items@.len() - i,
    {
        proof {
            assert(items@.take(i + 1).drop_last() == items@.take(i as int));
        }
        push_str(s, "  ");
        let q = debug_quote(items[i].name_str());
        push_str(s, q.as_str());
        push_str(s, "  (");
        push_str(s, items[i].id_str());
        push_str(s, ")\n");
        i = i + 1;
    }
    proof {
        assert(items@.take(i as int) == items@);
    }
}

fn push_project_flags(s: &mut String, ps: &Vec<Project>)
    ensures
        final(s)@ == old(s)@ + project_flag_lines(ps@),
{
    let ghost head = s@;
    let mut i: usize = 0;
    while i < ps.len()
        invariant
            0 <= i <= ps@.len(),
            s@ == head + project_flag_lines(ps@.take(i as int)),
        decreases ps@.len() - i,
    {
        proof {
            assert(ps@.take(i + 1).drop_last() == ps@.take(i as int));
        }
        push_str(s, "  --project ");
        let q = debug_quote(ps[i].name.as_str());
        push_str(s, q.as_str());
        push_str(s, "  # ");
        push_str(s, ps[i].id.as_str());
        push_str(s, "\n");
        i = i + 1;
    }
    proof {
        assert(ps@.take(i as int) == ps@);
    }
}

/// Formats a resolution error into a human-readable message with actionable
/// suggestions.
pub fn format_resolve_error(err: &ResolveError) -> (r: String)
    ensures
        r@ == resolve_error_text(*err),
{
    let mut msg = String::new();
    match err {
        ResolveError::NoWorkspaces => {
            push_str(&mut msg, "error: no workspaces found for your account\n\nhint: check that your account has access to at least one workspace");
        },
        ResolveError::AmbiguousWorkspace { candidates } => {
            push_str(&mut msg, "error: multiple workspaces found; specify --workspace <NAME-OR-ID>:\n");
            push_workspace_flags(&mut msg, candidates);
            push_str(&mut msg, "\nor set defaults.workspace in ~/.config/pmtool/config.toml");
        },
        ResolveError::WorkspaceNotFound { query, candidates } => {
            push_str(&mut msg, "error: no workspace matching ");
            let q = debug_quote(query.as_str());
            push_str(&mut msg, q.as_str());
            push_str(&mut msg, "; available:\n");
            push_candidates(&mut msg, candidates.as_slice());
            push_str(&mut msg, "\nhint: use the exact name or ID from the list above");
        },
        ResolveError::NoProjects { workspace_name } => {
            push_str(&mut msg, "error: no projects found in workspace ");
            let q = debug_quote(workspace_name.as_str());
            push_str(&mut msg, q.as_str());
            push_str(&mut msg, "\n\nhint: create a project first, or check --workspace");
        },
        ResolveError::AmbiguousProject { workspace_name, candidates } => {
            push_str(&mut msg, "error: multiple projects in workspace ");
            let q = debug_quote(workspace_name.as_str());
            push_str(&mut msg, q.as_str());
            push_str(&mut msg, "; specify --project <NAME-OR-ID>:\n");
            push_project_flags(&mut msg, candidates);
            push_str(&mut msg, "\nor set defaults.project in ~/.config/pmtool/config.toml");
        },
        ResolveError::ProjectNotFound { query, workspace_name, candidates } => {
            push_str(&mut msg, "error: no project matching ");
            let q = debug_quote(query.as_str());
            push_str(&mut msg, q.as_str());
            push_str(&mut msg, " in workspace ");
            let w = debug_quote(workspace_name.as_str());
            push_str(&mut msg, w.as_str());
            push_str(&mut msg, "; available:\n");
            push_candidates(&mut msg, candidates.as_slice());
        },
        ResolveError::Api(a) => {
            push_str(&mut msg, "error: ");
            let m = a.to_string();
            push_str(&mut msg, m.as_str());
        },
    }
    msg
}

/// The workspace and project a command works on.
#[derive(Debug)]
pub struct ResolvedContext {
    pub workspace: Workspace,
    pub project: Project,
}

/// The first position whose ID is `q`, or whose name equals `q` in ASCII
/// lower case.
pub open spec fn first_match<T: Listed>(items: Seq<T>, q: Seq<char>) -> Option<int>
    decreases items.len(),
{
    if items.len() == 0 {
        None
    } else {
        match first_match(items.drop_last(), q) {
            Some(i) => Some(i),
            None => if items.last().spec_id() == q || ascii_lower(items.last().spec_name()) == ascii_lower(q) {
                Some(items.len() - 1)
            } else {
                None
            },
        }
    }
}

proof fn lemma_first_match_prefix<T: Listed>(items: Seq<T>, q: Seq<char>, n: int)
    requires
        0 <= n <= items.len(),
    ensures
        first_match(items.take(n), q) matches Some(i) ==> first_match(items, q) == Some(i) && 0 <= i < n,
    decreases items.len() - n,
{
    if n < items.len() {
        assert(items.take(n + 1).drop_last() == items.take(n));
        lemma_first_match_prefix(items, q, n + 1);
        lemma_first_match_bound(items.take(n), q);
    } else {
        assert(items.take(n) == items);
        lemma_first_match_bound(items, q);
    }
}

proof fn lemma_first_match_bound<T: Listed>(items: Seq<T>, q: Seq<char>)
    ensures
        first_match(items, q) matches Some(i) ==> 0 <= i < items.len(),
    decreases items.len(),
{
    if items.len() > 0 {
        lemma_first_match_bound(items.drop_last(), q);
    }
}

/// The position `first_match` describes.
fn find_match<T: Listed>(items: &[T], query: &str) -> (r: Option<usize>)
    ensures
        r matches Some(i) ==> first_match(items@, query@) == Some(i as int),
        r is None ==> first_match(items@, query@) is None,
{
    let q = crate::text::to_ascii_lowercase(query);
    let mut i: usize = 0;
    while i < items.len()
        invariant
            0 <= i <= items@.len(),
            q@ == ascii_lower(query@),
            first_match(items@.take(i as int), query@) is None,
        decreases items@.len() - i,
    {
        proof {
            assert(items@.take(i + 1).drop_last() == items@.take(i as int));
        }
        let n = crate::text::to_ascii_lowercase(items[i].name_str());
        if crate::text::str_eq(items[i].id_str(), query) || crate::text::str_eq(n.as_str(), q.as_str()) {
            proof {
                lemma_first_match_prefix(items@, query@, i + 1);
            }
            return Some(i);
        }
        i = i + 1;
    }
    proof {
        assert(items@.take(i as int) == items@);
    }
    None
}

/// Resolves a workspace from the user's workspaces and an optional hint: a
/// hint matches an ID, or a name in ASCII lower case; without a hint the
/// sole workspace is used (and announced on standard error).
pub fn resolve_workspace(workspaces: Vec<Workspace>, hint: Option<&str>) -> (r: Result<Workspace, ResolveError>)
    ensures
        workspaces@.len() == 0 ==> r matches Err(ResolveError::NoWorkspaces),
        workspaces@.len() > 0 && hint is Some ==> match first_match(workspaces@, hint->Some_0@) {
            Some(i) => r matches Ok(w) && w.id@ == workspaces@[i].id@ && w.name@ == workspaces@[i].name@,
            None => r matches Err(ResolveError::WorkspaceNotFound { query, candidates }) && query@ == hint->Some_0@
                && entries(candidates@) == entries(workspaces@),
        },
        workspaces@.len() == 1 && hint is None ==> (r matches Ok(w) && w.id@ == workspaces@[0].id@
            && w.name@ == workspaces@[0].name@),
        workspaces@.len() > 1 && hint is None ==> (r matches Err(ResolveError::AmbiguousWorkspace { candidates })
            && entries(candidates@) == entries(workspaces@)),
{
    if workspaces.len() == 0 {
        return Err(ResolveError::NoWorkspaces);
    }
    match hint {
        Some(query) => {
            match find_match(workspaces.as_slice(), query) {
                Some(i) => {
                    proof {
                        lemma_first_match_bound(workspaces@, query@);
                    }
                    Ok(workspaces[i].clone())
                },
                None => Err(ResolveError::WorkspaceNotFound { query: owned(query), candidates: workspaces }),
            }
        },
        None => {
            if workspaces.len() == 1 {
                let ws = workspaces[0].clone();
                let mut line = String::new();
                push_str(&mut line, "auto: using workspace ");
                let q = debug_quote(ws.name.as_str());
                push_str(&mut line, q.as_str());
                push_str(&mut line, " (");
                push_str(&mut line, ws.id.as_str());
                push_str(&mut line, ")");
                write_stderr_line(line.as_str());
                Ok(ws)
            } else {
                Err(ResolveError::AmbiguousWorkspace { candidates: workspaces })
            }
        },
    }
}

/// Resolves a project of `workspace` from its projects and an optional hint,
/// by the same rules as a workspace.
pub fn resolve_project(projects: Vec<Project>, workspace: &Workspace, hint: Option<&str>) -> (r: Result<Project, ResolveError>)
    ensures
        projects@.len() == 0 ==> (r matches Err(ResolveError::NoProjects { workspace_name })
            && workspace_name@ == workspace.name@),
        projects@.len() > 0 && hint is Some ==> match first_match(projects@, hint->Some_0@) {
            Some(i) => r matches Ok(p) && p.id@ == projects@[i].id@ && p.name@ == projects@[i].name@,
            None => r matches Err(ResolveError::ProjectNotFound { query, workspace_name, candidates })
                && query@ == hint->Some_0@ && workspace_name@ == workspace.name@
                && entries(candidates@) == entries(projects@),
        },
        projects@.len() == 1 && hint is None ==> (r matches Ok(p) && p.id@ == projects@[0].id@
            && p.name@ == projects@[0].name@),
        projects@.len() > 1 && hint is None ==> (r matches Err(ResolveError::AmbiguousProject { workspace_name, candidates })
            && workspace_name@ == workspace.name@ && entries(candidates@) == entries(projects@)),
{
    if projects.len() == 0 {
        return Err(ResolveError::NoProjects { workspace_name: workspace.name.clone() });
    }
    match hint {
        Some(query) => {
            match find_match(projects.as_slice(), query) {
                Some(i) => {
                    proof {
                        lemma_first_match_bound(projects@, query@);
                    }
                    Ok(projects[i].clone())
                },
                None => Err(ResolveError::ProjectNotFound {
                    query: owned(query),
                    workspace_name: workspace.name.clone(),
                    candidates: projects,
                }),
            }
        },
        None => {
            if projects.len() == 1 {
                let proj = projects[0].clone();
                let mut line = String::new();
                push_str(&mut line, "auto: using project ");
                let q = debug_quote(proj.name.as_str());
                push_str(&mut line, q.as_str());
                push_str(&mut line, " (");
                push_str(&mut line, proj.id.as_str());
                push_str(&mut line, ")");
                write_stderr_line(line.as_str());
                Ok(proj)
            } else {
                Err(ResolveError::AmbiguousProject { workspace_name: workspace.name.clone(), candidates: projects })
            }
        },
    }
}

/// The names, joined with `, `.
pub open spec fn joined_names(ws: Seq<Workspace>) -> Seq<char>
    decreases ws.len(),
{
    if ws.len() == 0 {
        Seq::empty()
    } else if ws.len() == 1 {
        ws[0].name@
    } else {
        joined_names(ws.drop_last()) + ", "@ + ws.last().name@
    }
}

/// The hint of the JSON form of an error, if any.
pub open spec fn json_hint(err: ResolveError) -> Option<Seq<char>> {
    match err {
        ResolveError::AmbiguousWorkspace { candidates } => Some("pass --workspace with one of: "@ + joined_names(candidates@)),
        ResolveError::WorkspaceNotFound { .. } => Some("check workspace name or ID"@),
        _ => None,
    }
}

/// The JSON form of an error: an object with the keys `code`, `error` and,
/// when there is one, `hint`, in that order.
pub open spec fn resolve_error_json(err: ResolveError, exit_code: i32) -> Seq<char> {
    "{\"code\":"@ + signed_decimal(exit_code as int) + ",\"error\":"@ + json_string(resolve_message(err))
        + match json_hint(err) {
        Some(h) => ",\"hint\":"@ + json_string(h),
        None => Seq::empty(),
    } + "}"@
}

/// Formats a resolution error as one line of JSON for `--json` mode.
pub fn format_resolve_error_json(err: &ResolveError, exit_code: i32) -> (r: String)
    ensures
        r@ == resolve_error_json(*err, exit_code),
{
    let text = err.to_string();
    let mut hint: Option<String> = None;
    match err {
        ResolveError::AmbiguousWorkspace { candidates } => {
            let mut h = String::new();
            push_str(&mut h, "pass --workspace with one of: ");
            let ghost head = h@;
            let mut i: usize = 0;
            while i < candidates.len()
                invariant
                    0 <= i <= candidates@.len(),
                    h@ == head + joined_names(candidates@.take(i as int)),
                decreases candidates@.len() - i,
            {
                proof {
                    assert(candidates@.take(i + 1).drop_last() == candidates@.take(i as int));
                }
                if i > 0 {
                    push_str(&mut h, ", ");
                }
                push_str(&mut h, candidates[i].name.as_str());
                proof {
                    if i == 0 {
                        assert(candidates@.take(1)[0] == candidates@[0]);
                    }
                }
                i = i + 1;
            }
            proof {
                assert(candidates@.take(i as int) == candidates@);
            }
            hint = Some(h);
        },
        ResolveError::WorkspaceNotFound { .. } => {
            hint = Some(owned("check workspace name or ID"));
        },
        _ => {},
    }
    let mut s = String::new();
    push_str(&mut s, "{\"code\":");
    push_signed(&mut s, exit_code as i64);
    push_str(&mut s, ",\"error\":");
    let e = to_json_string(text.as_str());
    push_str(&mut s, e.as_str());
    match hint {
        Some(h) => {
            push_str(&mut s, ",\"hint\":");
            let j = to_json_string(h.as_str());
            push_str(&mut s, j.as_str());
        },
        None => {},
    }
    push_str(&mut s, "}");
    s
}

} // verus!
