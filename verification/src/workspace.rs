//! Auto-resolution of workspace and project identifiers: when the user omits
//! the flag, the sole workspace (or project) is picked; a value given may be
//! an ID or a name, matched without regard to case. Errors list the options.
use vstd::prelude::*;
use vstd::string::StringSliceAdditionalSpecFns;
use crate::text::{
    debug_quote, quoted, decimal, push_decimal, push_padded, push_str, pad_right, byte_len, str_eq,
    to_lowercase, lowercase, owned,
};

verus! {

/// A workspace returned by the list-workspaces endpoint.
#[derive(Debug)]
pub struct Workspace {
    pub id: String,
    pub name: String,
}

/// A project returned by the list-projects endpoint.
#[derive(Debug)]
pub struct Project {
    pub id: String,
    pub name: String,
    pub workspace_id: String,
}

impl Clone for Workspace {
    fn clone(&self) -> (r: Self)
        ensures
            r.id@ == self.id@,
            r.name@ == self.name@,
    {
        Workspace { id: self.id.clone(), name: self.name.clone() }
    }
}

impl Clone for Project {
    fn clone(&self) -> (r: Self)
        ensures
            r.id@ == self.id@,
            r.name@ == self.name@,
            r.workspace_id@ == self.workspace_id@,
    {
        Project { id: self.id.clone(), name: self.name.clone(), workspace_id: self.workspace_id.clone() }
    }
}

/// A named entry of a table: its name and its ID.
pub trait Listed {
    spec fn spec_name(&self) -> Seq<char>;

    spec fn spec_id(&self) -> Seq<char>;

    fn name_str(&self) -> (r: &str)
        ensures
            r@ == self.spec_name(),
    ;

    fn id_str(&self) -> (r: &str)
        ensures
            r@ == self.spec_id(),
    ;
}

impl Listed for Workspace {
    open spec fn spec_name(&self) -> Seq<char> {
        self.name@
    }

    open spec fn spec_id(&self) -> Seq<char> {
        self.id@
    }

    fn name_str(&self) -> (r: &str) {
        self.name.as_str()
    }

    fn id_str(&self) -> (r: &str) {
        self.id.as_str()
    }
}

impl Listed for Project {
    open spec fn spec_name(&self) -> Seq<char> {
        self.name@
    }

    open spec fn spec_id(&self) -> Seq<char> {
        self.id@
    }

    fn name_str(&self) -> (r: &str) {
        self.name.as_str()
    }

    fn id_str(&self) -> (r: &str) {
        self.id.as_str()
    }
}

/// Errors produced while resolving a workspace or project.
#[derive(Debug)]
pub enum ResolveError {
    /// The user omitted the flag and there is no workspace.
    NoWorkspaces,
    /// The user omitted the flag and there are several workspaces.
    MultipleWorkspaces(Vec<Workspace>),
    /// The name or ID given matched nothing.
    WorkspaceNotFound { query: String, available: Vec<Workspace> },
    /// The name given matched several workspaces.
    AmbiguousWorkspace { query: String, matches: Vec<Workspace> },
    NoProjects { workspace: Workspace },
    MultipleProjects { workspace: Workspace, projects: Vec<Project> },
    ProjectNotFound { query: String, workspace: Workspace, available: Vec<Project> },
    AmbiguousProject { query: String, matches: Vec<Project> },
    /// A transport or authentication failure when calling the API.
    Api(String),
}

/// The widest name, in bytes, and at least 4 (the width of the `NAME` header).
pub open spec fn name_width<T: Listed>(items: Seq<T>) -> nat
    decreases items.len(),
{
    if items.len() == 0 {
        4
    } else {
        let rest = name_width(items.drop_last());
        let w = byte_len(items.last().spec_name());
        if w > rest { w } else { rest }
    }
}

/// The rows of a table, each `  <name padded to w>  <id>` and a newline.
pub open spec fn table_rows<T: Listed>(items: Seq<T>, w: nat) -> Seq<char>
    decreases items.len(),
{
    if items.len() == 0 {
        Seq::empty()
    } else {
        table_rows(items.drop_last(), w) + "  "@ + pad_right(items.last().spec_name(), w) + "  "@
            + items.last().spec_id() + "\n"@
    }
}

/// A table of names and IDs under a `NAME` / `ID` header.
pub open spec fn table<T: Listed>(items: Seq<T>) -> Seq<char> {
    let w = name_width(items);
    "  "@ + pad_right("NAME"@, w) + "  ID\n"@ + "  "@ + pad_right("----"@, w) + "  --\n"@ + table_rows(items, w)
}

/// Appends the table of `items` to `s`.
fn push_table<T: Listed>(s: &mut String, items: &[T])
    ensures
        final(s)@ == old(s)@ + table(items@),
{
    let mut w: usize = 4;
    let mut i: usize = 0;
    while i < items.len()
        invariant
            0 <= i <= items@.len(),
            w as nat == name_width(items@.take(i as int)),
        decreases items@.len() - i,
    {
        proof {
            assert(items@.take(i + 1).drop_last() == items@.take(i as int));
        }
        let nm = items[i].name_str();
        let l = nm.as_bytes().len();
        proof {
            assert(nm.spec_bytes() == vstd::utf8::encode_utf8(nm@));
            assert(l == byte_len(items@[i as int].spec_name()));
        }
        if l > w {
            w = l;
        }
        i = i + 1;
    }
    proof {
        assert(items@.take(i as int) == items@);
    }
    push_str(s, "  ");
    push_padded(s, "NAME", w);
    push_str(s, "  ID\n");
    push_str(s, "  ");
    push_padded(s, "----", w);
    push_str(s, "  --\n");
    let ghost head = s@;
    let mut j: usize = 0;
    while j < items.len()
        invariant
            0 <= j <= items@.len(),
            s@ == head + table_rows(items@.take(j as int), w as nat),
        decreases items@.len() - j,
    {
        proof {
            assert(items@.take(j + 1).drop_last() == items@.take(j as int));
        }
        push_str(s, "  ");
        push_padded(s, items[j].name_str(), w);
        push_str(s, "  ");
        push_str(s, items[j].id_str());
        push_str(s, "\n");
        j = j + 1;
    }
    proof {
        assert(items@.take(j as int) == items@);
    }
}

/// The error message, table included.
pub open spec fn resolve_message(e: ResolveError) -> Seq<char> {
    match e {
        ResolveError::NoWorkspaces => "error: no workspaces found for your account\n\nHint: create a workspace first, or check that your auth token is correct."@,
        ResolveError::MultipleWorkspaces(ws) => "error: --workspace is required (you belong to "@
            + decimal(ws@.len()) + " workspaces)\n\n"@ + table(ws@)
            + "\nPass --workspace <ID or NAME> to select one.\nTip: if you always use the same workspace, set NOTION_WORKSPACE in your environment."@,
        ResolveError::WorkspaceNotFound { query, available } => "error: workspace "@ + quoted(query@)
            + " not found\n\n"@ + if available@.len() == 0 {
            "You have no workspaces."@
        } else {
            "Available workspaces:\n"@ + table(available@) + "\nPass the exact ID or name shown above."@
        },
        ResolveError::AmbiguousWorkspace { query, matches } => "error: "@ + quoted(query@) + " matches "@
            + decimal(matches@.len()) + " workspaces\n\n"@ + table(matches@)
            + "\nPass the full workspace ID to disambiguate."@,
        ResolveError::NoProjects { workspace } => "error: workspace "@ + quoted(workspace.name@) + " ("@
            + workspace.id@ + ") has no projects\n\nHint: create a project first."@,
        ResolveError::MultipleProjects { workspace, projects } => "error: --project is required (workspace "@
            + quoted(workspace.name@) + " has "@ + decimal(projects@.len()) + " projects)\n\n"@ + table(projects@)
            + "\nPass --project <ID or NAME> to select one.\nTip: set NOTION_PROJECT in your environment for a default."@,
        ResolveError::ProjectNotFound { query, workspace, available } => "error: project "@ + quoted(query@)
            + " not found in workspace "@ + quoted(workspace.name@) + "\n\n"@ + if available@.len() == 0 {
            "This workspace has no projects."@
        } else {
            "Available projects:\n"@ + table(available@) + "\nPass the exact ID or name shown above."@
        },
        ResolveError::AmbiguousProject { query, matches } => "error: "@ + quoted(query@) + " matches "@
            + decimal(matches@.len()) + " projects\n\n"@ + table(matches@)
            + "\nPass the full project ID to disambiguate."@,
        ResolveError::Api(msg) => "error: API call failed: "@ + msg@,
    }
}

impl ResolveError {
    /// The message shown to the user.
    pub fn to_string(&self) -> (r: String)
        ensures
            r@ == resolve_message(*self),
    {
        let mut s = String::new();
        match self {
            ResolveError::NoWorkspaces => {
                push_str(&mut s, "error: no workspaces found for your account\n\nHint: create a workspace first, or check that your auth token is correct.");
            },
            ResolveError::MultipleWorkspaces(ws) => {
                push_str(&mut s, "error: --workspace is required (you belong to ");
                push_decimal(&mut s, ws.len() as u64);
                push_str(&mut s, " workspaces)\n\n");
                push_table(&mut s, ws.as_slice());
                push_str(&mut s, "\nPass --workspace <ID or NAME> to select one.\nTip: if you always use the same workspace, set NOTION_WORKSPACE in your environment.");
            },
            ResolveError::WorkspaceNotFound { query, available } => {
                push_str(&mut s, "error: workspace ");
                let q = debug_quote(query.as_str());
                push_str(&mut s, q.as_str());
                push_str(&mut s, " not found\n\n");
                if available.len() == 0 {
                    push_str(&mut s, "You have no workspaces.");
                } else {
                    push_str(&mut s, "Available workspaces:\n");
                    push_table(&mut s, available.as_slice());
                    push_str(&mut s, "\nPass the exact ID or name shown above.");
                }
            },
            ResolveError::AmbiguousWorkspace { query, matches } => {
                push_str(&mut s, "error: ");
                let q = debug_quote(query.as_str());
                push_str(&mut s, q.as_str());
                push_str(&mut s, " matches ");
                push_decimal(&mut s, matches.len() as u64);
                push_str(&mut s, " workspaces\n\n");
                push_table(&mut s, matches.as_slice());
                push_str(&mut s, "\nPass the full workspace ID to disambiguate.");
            },
            ResolveError::NoProjects { workspace } => {
                push_str(&mut s, "error: workspace ");
                let q = debug_quote(workspace.name.as_str());
                push_str(&mut s, q.as_str());
                push_str(&mut s, " (");
                push_str(&mut s, workspace.id.as_str());
                push_str(&mut s, ") has no projects\n\nHint: create a project first.");
            },
            ResolveError::MultipleProjects { workspace, projects } => {
                push_str(&mut s, "error: --project is required (workspace ");
                let q = debug_quote(workspace.name.as_str());
                push_str(&mut s, q.as_str());
                push_str(&mut s, " has ");
                push_decimal(&mut s, projects.len() as u64);
                push_str(&mut s, " projects)\n\n");
                push_table(&mut s, projects.as_slice());
                push_str(&mut s, "\nPass --project <ID or NAME> to select one.\nTip: set NOTION_PROJECT in your environment for a default.");
            },
            ResolveError::ProjectNotFound { query, workspace, available } => {
                push_str(&mut s, "error: project ");
                let q = debug_quote(query.as_str());
                push_str(&mut s, q.as_str());
                push_str(&mut s, " not found in workspace ");
                let wn = debug_quote(workspace.name.as_str());
                push_str(&mut s, wn.as_str());
                push_str(&mut s, "\n\n");
                if available.len() == 0 {
                    push_str(&mut s, "This workspace has no projects.");
                } else {
                    push_str(&mut s, "Available projects:\n");
                    push_table(&mut s, available.as_slice());
                    push_str(&mut s, "\nPass the exact ID or name shown above.");
                }
            },
            ResolveError::AmbiguousProject { query, matches } => {
                push_str(&mut s, "error: ");
                let q = debug_quote(query.as_str());
                push_str(&mut s, q.as_str());
                push_str(&mut s, " matches ");
                push_decimal(&mut s, matches.len() as u64);
                push_str(&mut s, " projects\n\n");
                push_table(&mut s, matches.as_slice());
                push_str(&mut s, "\nPass the full project ID to disambiguate.");
            },
            ResolveError::Api(msg) => {
                push_str(&mut s, "error: API call failed: ");
                push_str(&mut s, msg.as_str());
            },
        }
        s
    }
}

/// The ID and name of each entry.
pub open spec fn entries<T: Listed>(items: Seq<T>) -> Seq<(Seq<char>, Seq<char>)> {
    items.map_values(|x: T| (x.spec_id(), x.spec_name()))
}

/// How names are folded before they are compared: full Unicode lower case,
/// or ASCII letters only.
pub open spec fn fold_case(s: Seq<char>, ascii: bool) -> Seq<char> {
    if ascii {
        crate::text::ascii_lower(s)
    } else {
        lowercase(s)
    }
}

/// The first position whose ID is `q`, if any.
pub open spec fn id_position<T: Listed>(items: Seq<T>, q: Seq<char>) -> Option<int>
    decreases items.len(),
{
    if items.len() == 0 {
        None
    } else {
        match id_position(items.drop_last(), q) {
            Some(i) => Some(i),
            None => if items.last().spec_id() == q { Some(items.len() - 1) } else { None },
        }
    }
}

/// The positions, in order, whose folded name equals `fq`.
pub open spec fn name_hits<T: Listed>(items: Seq<T>, fq: Seq<char>, ascii: bool) -> Seq<int>
    decreases items.len(),
{
    if items.len() == 0 {
        Seq::empty()
    } else {
        let rest = name_hits(items.drop_last(), fq, ascii);
        if fold_case(items.last().spec_name(), ascii) == fq {
            rest.push(items.len() - 1)
        } else {
            rest
        }
    }
}

/// Which entries a query picks.
#[derive(Debug)]
pub enum Pick {
    /// The entry at this position (an ID match, or the only name match).
    One(usize),
    /// No entry.
    Nothing,
    /// Several entries match by name, at these positions.
    Several(Vec<usize>),
}

/// The folded form of a string: `str::to_lowercase`, or `to_ascii_lowercase`.
fn fold(s: &str, ascii: bool) -> (r: String)
    ensures
        r@ == fold_case(s@, ascii),
{
    if ascii {
        crate::text::to_ascii_lowercase(s)
    } else {
        to_lowercase(s)
    }
}

/// Picks entries for a query: an exact ID match first, then names equal to
/// the query once both are folded.
pub fn pick<T: Listed>(items: &[T], query: &str, ascii: bool) -> (r: Pick)
    ensures
        id_position(items@, query@) matches Some(i) ==> r == Pick::One(i as usize),
        id_position(items@, query@) is None ==> {
            let hits = name_hits(items@, fold_case(query@, ascii), ascii);
            &&& hits.len() == 0 ==> r is Nothing
            &&& hits.len() == 1 ==> r == Pick::One(hits[0] as usize)
            &&& hits.len() > 1 ==> (r matches Pick::Several(v) && v@.len() == hits.len()
                && forall|k: int| 0 <= k < hits.len() ==> v@[k] as int == #[trigger] hits[k])
        },
{
    let mut i: usize = 0;
    while i < items.len()
        invariant
            0 <= i <= items@.len(),
            id_position(items@.take(i as int), query@) is None,
        decreases items@.len() - i,
    {
        proof {
            assert(items@.take(i + 1).drop_last() == items@.take(i as int));
        }
        if str_eq(items[i].id_str(), query) {
            proof {
                assert(id_position(items@.take(i + 1), query@) == Some(i as int));
                lemma_id_position_prefix(items@, query@, i + 1);
            }
            return Pick::One(i);
        }
        i = i + 1;
    }
    proof {
        assert(items@.take(i as int) == items@);
    }
    let fq = fold(query, ascii);
    let mut hits: Vec<usize> = Vec::new();
    let mut j: usize = 0;
    while j < items.len()
        invariant
            0 <= j <= items@.len(),
            hits@.len() == name_hits(items@.take(j as int), fq@, ascii).len(),
            forall|k: int| 0 <= k < hits@.len() ==> hits@[k] as int == #[trigger] name_hits(items@.take(j as int), fq@, ascii)[k],
            forall|k: int| 0 <= k < hits@.len() ==> hits@[k] < j,
        decreases items@.len() - j,
    {
        proof {
            assert(items@.take(j + 1).drop_last() == items@.take(j as int));
        }
        let f = fold(items[j].name_str(), ascii);
        if str_eq(f.as_str(), fq.as_str()) {
            hits.push(j);
        }
        j = j + 1;
    }
    proof {
        assert(items@.take(j as int) == items@);
    }
    if hits.len() == 0 {
        Pick::Nothing
    } else if hits.len() == 1 {
        Pick::One(hits[0])
    } else {
        Pick::Several(hits)
    }
}

/// The first ID match in a prefix is the first ID match overall.
proof fn lemma_id_position_prefix<T: Listed>(items: Seq<T>, q: Seq<char>, n: int)
    requires
        0 <= n <= items.len(),
        id_position(items.take(n), q) is Some,
    ensures
        id_position(items, q) == id_position(items.take(n), q),
    decreases items.len() - n,
{
    if n < items.len() {
        assert(items.take(n + 1).drop_last() == items.take(n));
        lemma_id_position_prefix(items, q, n + 1);
    } else {
        assert(items.take(n) == items);
    }
}

/// The entries of `items` at the given positions.
pub open spec fn entries_at<T: Listed>(items: Seq<T>, at: Seq<int>) -> Seq<(Seq<char>, Seq<char>)> {
    at.map_values(|i: int| (items[i].spec_id(), items[i].spec_name()))
}

/// Clones of the workspaces at the given positions.
fn workspaces_at(ws: &Vec<Workspace>, at: &Vec<usize>) -> (r: Vec<Workspace>)
    requires
        forall|k: int| 0 <= k < at@.len() ==> #[trigger] at@[k] < ws@.len(),
    ensures
        entries(r@) == entries_at(ws@, at@.map_values(|i: usize| i as int)),
{
    let mut r: Vec<Workspace> = Vec::new();
    let mut k: usize = 0;
    while k < at.len()
        invariant
            forall|q: int| 0 <= q < at@.len() ==> #[trigger] at@[q] < ws@.len(),
            0 <= k <= at@.len(),
            entries(r@) == entries_at(ws@, at@.map_values(|i: usize| i as int).take(k as int)),
        decreases at@.len() - k,
    {
        let w = ws[at[k]].clone();
        let ghost r0 = r@;
        r.push(w);
        proof {
            assert(entries(r@) == entries(r0).push((ws@[at@[k as int] as int].spec_id(), ws@[at@[k as int] as int].spec_name())));
            assert(at@.map_values(|i: usize| i as int).take(k + 1) == at@.map_values(|i: usize| i as int).take(k as int).push(at@[k as int] as int));
        }
        k = k + 1;
    }
    proof {
        assert(at@.map_values(|i: usize| i as int).take(k as int) == at@.map_values(|i: usize| i as int));
    }
    r
}

/// Clones of the projects at the given positions.
fn projects_at(ps: &Vec<Project>, at: &Vec<usize>) -> (r: Vec<Project>)
    requires
        forall|k: int| 0 <= k < at@.len() ==> #[trigger] at@[k] < ps@.len(),
    ensures
        entries(r@) == entries_at(ps@, at@.map_values(|i: usize| i as int)),
{
    let mut r: Vec<Project> = Vec::new();
    let mut k: usize = 0;
    while k < at.len()
        invariant
            forall|q: int| 0 <= q < at@.len() ==> #[trigger] at@[q] < ps@.len(),
            0 <= k <= at@.len(),
            entries(r@) == entries_at(ps@, at@.map_values(|i: usize| i as int).take(k as int)),
        decreases at@.len() - k,
    {
        let p = ps[at[k]].clone();
        let ghost r0 = r@;
        r.push(p);
        proof {
            assert(entries(r@) == entries(r0).push((ps@[at@[k as int] as int].spec_id(), ps@[at@[k as int] as int].spec_name())));
            assert(at@.map_values(|i: usize| i as int).take(k + 1) == at@.map_values(|i: usize| i as int).take(k as int).push(at@[k as int] as int));
        }
        k = k + 1;
    }
    proof {
        assert(at@.map_values(|i: usize| i as int).take(k as int) == at@.map_values(|i: usize| i as int));
    }
    r
}

proof fn lemma_hits_in_range<T: Listed>(items: Seq<T>, fq: Seq<char>, ascii: bool)
    ensures
        forall|k: int| 0 <= k < name_hits(items, fq, ascii).len() ==> 0 <= #[trigger] name_hits(items, fq, ascii)[k] < items.len(),
    decreases items.len(),
{
    if items.len() > 0 {
        lemma_hits_in_range(items.drop_last(), fq, ascii);
        let rest = name_hits(items.drop_last(), fq, ascii);
        assert forall|k: int| 0 <= k < name_hits(items, fq, ascii).len()
            implies 0 <= #[trigger] name_hits(items, fq, ascii)[k] < items.len() by {
            if k < rest.len() {
                assert(name_hits(items, fq, ascii)[k] == rest[k]);
            }
        }
    }
}

proof fn lemma_id_position_in_range<T: Listed>(items: Seq<T>, q: Seq<char>)
    ensures
        id_position(items, q) matches Some(i) ==> 0 <= i < items.len(),
    decreases items.len(),
{
    if items.len() > 0 {
        lemma_id_position_in_range(items.drop_last(), q);
    }
}

/// Resolves a workspace from the user's workspaces and an optional flag value.
/// Without a flag the sole workspace is picked; with one, an exact ID match
/// wins, then a case-insensitive name match.
#[verifier::spinoff_prover]
pub fn resolve_workspace(workspaces: Vec<Workspace>, flag: Option<&str>) -> (r: Result<Workspace, ResolveError>)
    ensures
        flag is None && workspaces@.len() == 0 ==> r matches Err(ResolveError::NoWorkspaces),
        flag is None && workspaces@.len() == 1 ==> (r matches Ok(w) && (w.id@, w.name@) == entries(workspaces@)[0]),
        flag is None && workspaces@.len() > 1 ==> (r matches Err(ResolveError::MultipleWorkspaces(v))
            && entries(v@) == entries(workspaces@)),
        flag matches Some(q) ==> {
            let hits = name_hits(workspaces@, lowercase(q@), false);
            &&& id_position(workspaces@, q@) matches Some(i) ==> (r matches Ok(w) && (w.id@, w.name@) == entries(workspaces@)[i])
            &&& id_position(workspaces@, q@) is None && hits.len() == 0 ==> (r matches Err(
                ResolveError::WorkspaceNotFound { query, available },
            ) && query@ == q@ && entries(available@) == entries(workspaces@))
            &&& id_position(workspaces@, q@) is None && hits.len() == 1 ==> (r matches Ok(w)
                && (w.id@, w.name@) == entries(workspaces@)[hits[0]])
            &&& id_position(workspaces@, q@) is None && hits.len() > 1 ==> (r matches Err(
                ResolveError::AmbiguousWorkspace { query, matches },
            ) && query@ == q@ && entries(matches@) == entries_at(workspaces@, hits))
        },
{
    match flag {
        None => {
            if workspaces.len() == 0 {
                Err(ResolveError::NoWorkspaces)
            } else if workspaces.len() == 1 {
                Ok(workspaces[0].clone())
            } else {
                Err(ResolveError::MultipleWorkspaces(workspaces))
            }
        },
        Some(query) => {
            proof {
                lemma_hits_in_range(workspaces@, lowercase(query@), false);
                lemma_id_position_in_range(workspaces@, query@);
            }
            match pick(workspaces.as_slice(), query, false) {
                Pick::One(i) => {
                    let w = workspaces[i].clone();
                    assert((w.id@, w.name@) == entries(workspaces@)[i as int]);
                    proof {
                        let hits = name_hits(workspaces@, lowercase(query@), false);
                        if id_position(workspaces@, query@) is None && hits.len() == 1 {
                            assert(i as int == hits[0]);
                        }
                    }
                    Ok(w)
                },
                Pick::Nothing => Err(ResolveError::WorkspaceNotFound { query: owned(query), available: workspaces }),
                Pick::Several(at) => {
                    proof {
                        assert forall|k: int| 0 <= k < at@.len() implies #[trigger] at@[k] < workspaces@.len() by {
                            assert(at@[k] as int == name_hits(workspaces@, lowercase(query@), false)[k]);
                        }
                    }
                    let matches = workspaces_at(&workspaces, &at);
                    proof {
                        assert(at@.map_values(|i: usize| i as int) == name_hits(workspaces@, lowercase(query@), false));
                    }
                    Err(ResolveError::AmbiguousWorkspace { query: owned(query), matches })
                },
            }
        },
    }
}

/// Resolves a project of `workspace` from its projects and an optional flag
/// value, by the same rules as a workspace.
#[verifier::spinoff_prover]
pub fn resolve_project(projects: Vec<Project>, workspace: &Workspace, flag: Option<&str>) -> (r: Result<Project, ResolveError>)
    ensures
        flag is None && projects@.len() == 0 ==> (r matches Err(ResolveError::NoProjects { workspace: w })
            && w.id@ == workspace.id@ && w.name@ == workspace.name@),
        flag is None && projects@.len() == 1 ==> (r matches Ok(p) && (p.id@, p.name@) == entries(projects@)[0]),
        flag is None && projects@.len() > 1 ==> (r matches Err(ResolveError::MultipleProjects { workspace: w, projects: v })
            && w.id@ == workspace.id@ && w.name@ == workspace.name@ && entries(v@) == entries(projects@)),
        flag matches Some(q) ==> {
            let hits = name_hits(projects@, lowercase(q@), false);
            &&& id_position(projects@, q@) matches Some(i) ==> (r matches Ok(p) && (p.id@, p.name@) == entries(projects@)[i])
            &&& id_position(projects@, q@) is None && hits.len() == 0 ==> (r matches Err(
                ResolveError::ProjectNotFound { query, workspace: w, available },
            ) && query@ == q@ && w.id@ == workspace.id@ && w.name@ == workspace.name@
                && entries(available@) == entries(projects@))
            &&& id_position(projects@, q@) is None && hits.len() == 1 ==> (r matches Ok(p)
                && (p.id@, p.name@) == entries(projects@)[hits[0]])
            &&& id_position(projects@, q@) is None && hits.len() > 1 ==> (r matches Err(
                ResolveError::AmbiguousProject { query, matches },
            ) && query@ == q@ && entries(matches@) == entries_at(projects@, hits))
        },
{
    match flag {
        None => {
            if projects.len() == 0 {
                Err(ResolveError::NoProjects { workspace: workspace.clone() })
            } else if projects.len() == 1 {
                Ok(projects[0].clone())
            } else {
                Err(ResolveError::MultipleProjects { workspace: workspace.clone(), projects })
            }
        },
        Some(query) => {
            proof {
                lemma_hits_in_range(projects@, lowercase(query@), false);
                lemma_id_position_in_range(projects@, query@);
            }
            match pick(projects.as_slice(), query, false) {
                Pick::One(i) => {
                    let p = projects[i].clone();
                    proof {
                        let hits = name_hits(projects@, lowercase(query@), false);
                        if id_position(projects@, query@) is None && hits.len() == 1 {
                            assert(i as int == hits[0]);
                        }
                    }
                    Ok(p)
                },
                Pick::Nothing => {
                    Err(ResolveError::ProjectNotFound { query: owned(query), workspace: workspace.clone(), available: projects })
                },
                Pick::Several(at) => {
                    proof {
                        assert forall|k: int| 0 <= k < at@.len() implies #[trigger] at@[k] < projects@.len() by {
                            assert(at@[k] as int == name_hits(projects@, lowercase(query@), false)[k]);
                        }
                    }
                    let matches = projects_at(&projects, &at);
                    proof {
                        assert(at@.map_values(|i: usize| i as int) == name_hits(projects@, lowercase(query@), false));
                    }
                    let q = owned(query);
                    assert(entries(matches@) == entries_at(projects@, name_hits(projects@, lowercase(query@), false)));
                    Err(ResolveError::AmbiguousProject { query: q, matches })
                },
            }
        },
    }
}

} // verus!
