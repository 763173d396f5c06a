//! A CI/CD task scheduler: tasks have pluggable execution strategies and
//! dependencies on one another. This module holds the task outcomes, the
//! strategies, and the scheduling decisions: which tasks may start, and what
//! a finished task means for the tasks that depend on it.
use vstd::prelude::*;
use crate::text::{push_decimal, push_str, owned, strings_debug_text};
use crate::sys::write_stdout_line;
use crate::taskgraph::{check_graph, GraphError, names, dep_names, graph_verdict};

verus! {

/// The result of running a single execution strategy attempt.
#[derive(Debug, Clone)]
pub struct ExecutionOutput {
    pub stdout: String,
    pub stderr: String,
    pub exit_code: i32,
}

impl ExecutionOutput {
    pub fn success(stdout: &str) -> (r: Self)
        ensures
            r.stdout@ == stdout@,
            r.stderr@ == Seq::<char>::empty(),
            r.exit_code == 0,
    {
        ExecutionOutput { stdout: owned(stdout), stderr: String::new(), exit_code: 0 }
    }

    pub fn failure(stderr: &str, code: i32) -> (r: Self)
        ensures
            r.stdout@ == Seq::<char>::empty(),
            r.stderr@ == stderr@,
            r.exit_code == code,
    {
        ExecutionOutput { stdout: String::new(), stderr: owned(stderr), exit_code: code }
    }
}

/// `Clone` for `Duration`, a `Copy` type: the clone is the same duration.
pub assume_specification[ <std::time::Duration as Clone>::clone ](d: &std::time::Duration) -> (r: std::time::Duration)
    ensures
        r == *d,
;

/// Why a task did not succeed.
#[derive(Debug, Clone)]
pub enum TaskError {
    ExecutionFailed(String),
    TimedOut(std::time::Duration),
    DependencyFailed(String),
    MaxRetriesExceeded { attempts: u32, last_error: String },
}

/// The text of a duration as `{:?}` prints it (`Debug` for `Duration`, such
/// as `1.5s` or `10ms`). Nothing is promised of the text: its form is std's.
#[verifier::external_body]
fn duration_text(d: &std::time::Duration) -> String {
    format!("{:?}", d)
}

impl TaskError {
    /// The message shown for the error.
    pub fn to_string(&self) -> (r: String)
        ensures
            self matches TaskError::ExecutionFailed(m) ==> r@ == "execution failed: "@ + m@,
            self matches TaskError::DependencyFailed(d) ==> r@ == "dependency '"@ + d@ + "' failed"@,
            self matches TaskError::MaxRetriesExceeded { attempts, last_error } ==> r@
                == "failed after "@ + crate::text::decimal(attempts as nat) + " attempts: "@ + last_error@,
            self is TimedOut ==> crate::text::has_prefix(r@, "timed out after "@),
    {
        let mut s = String::new();
        match self {
            TaskError::ExecutionFailed(m) => {
                push_str(&mut s, "execution failed: ");
                push_str(&mut s, m.as_str());
            },
            TaskError::TimedOut(d) => {
                push_str(&mut s, "timed out after ");
                let ghost head = s@;
                let t = duration_text(d);
                push_str(&mut s, t.as_str());
                assert(s@.subrange(0, head.len() as int) == head);
            },
            TaskError::DependencyFailed(d) => {
                push_str(&mut s, "dependency '");
                push_str(&mut s, d.as_str());
                push_str(&mut s, "' failed");
            },
            TaskError::MaxRetriesExceeded { attempts, last_error } => {
                push_str(&mut s, "failed after ");
                push_decimal(&mut s, *attempts as u64);
                push_str(&mut s, " attempts: ");
                push_str(&mut s, last_error.as_str());
            },
        }
        s
    }
}

/// The outcome of running a task once.
pub type TaskResult = Result<ExecutionOutput, TaskError>;

/// Each execution backend implements this trait. The scheduler calls
/// `execute` and looks only at whether it succeeded.
pub trait ExecutionStrategy: Send + Sync {
    /// Human-readable name shown in logs.
    fn name(&self) -> &str;

    /// Runs the task.
    fn execute(&self) -> TaskResult;
}

/// Runs a shell command (simulated: reports success).
pub struct ShellCommand {
    pub command: String,
}

impl ShellCommand {
    pub fn new(command: &str) -> (r: Self)
        ensures
            r.command@ == command@,
    {
        ShellCommand { command: owned(command) }
    }
}

impl ExecutionStrategy for ShellCommand {
    fn name(&self) -> (r: &str)
        ensures
            r@ == "shell"@,
    {
        "shell"
    }

    fn execute(&self) -> (r: TaskResult)
        ensures
            r matches Ok(out) && out.exit_code == 0
                && out.stdout@ == "shell output of `"@ + self.command@ + "`"@,
    {
        let mut line = String::new();
        push_str(&mut line, "  [shell] running: ");
        push_str(&mut line, self.command.as_str());
        let _ = write_stdout_line(line.as_str());
        let mut out = String::new();
        push_str(&mut out, "shell output of `");
        push_str(&mut out, self.command.as_str());
        push_str(&mut out, "`");
        Ok(ExecutionOutput::success(out.as_str()))
    }
}

/// Makes an HTTP request (simulated: reports success).
pub struct HttpRequest {
    pub method: String,
    pub url: String,
    pub body: Option<String>,
    pub headers: Vec<(String, String)>,
}

impl HttpRequest {
    pub fn get(url: &str) -> (r: Self)
        ensures
            r.method@ == "GET"@,
            r.url@ == url@,
            r.body is None,
            r.headers@.len() == 0,
    {
        HttpRequest { method: owned("GET"), url: owned(url), body: None, headers: Vec::new() }
    }

    pub fn post(url: &str, body: &str) -> (r: Self)
        ensures
            r.method@ == "POST"@,
            r.url@ == url@,
            r.body matches Some(b) && b@ == body@,
            r.headers@.len() == 0,
    {
        HttpRequest {
            method: owned("POST"),
            url: owned(url),
            body: Some(owned(body)),
            headers: Vec::new(),
        }
    }
}

impl ExecutionStrategy for HttpRequest {
    fn name(&self) -> (r: &str)
        ensures
            r@ == "http"@,
    {
        "http"
    }

    fn execute(&self) -> (r: TaskResult)
        ensures
            r matches Ok(out) && out.exit_code == 0 && out.stdout@ == "200 OK from "@ + self.url@,
    {
        let mut line = String::new();
        push_str(&mut line, "  [http] ");
        push_str(&mut line, self.method.as_str());
        push_str(&mut line, " ");
        push_str(&mut line, self.url.as_str());
        let _ = write_stdout_line(line.as_str());
        let mut out = String::new();
        push_str(&mut out, "200 OK from ");
        push_str(&mut out, self.url.as_str());
        Ok(ExecutionOutput::success(out.as_str()))
    }
}

/// Runs a Docker container (simulated: reports success).
pub struct DockerRun {
    pub image: String,
    pub command: Vec<String>,
    pub env_vars: Vec<(String, String)>,
    pub volumes: Vec<(String, String)>,
}

impl DockerRun {
    pub fn new(image: &str, command: Vec<String>) -> (r: Self)
        ensures
            r.image@ == image@,
            r.command@ == command@,
            r.env_vars@.len() == 0,
            r.volumes@.len() == 0,
    {
        DockerRun { image: owned(image), command, env_vars: Vec::new(), volumes: Vec::new() }
    }
}

impl ExecutionStrategy for DockerRun {
    fn name(&self) -> (r: &str)
        ensures
            r@ == "docker"@,
    {
        "docker"
    }

    fn execute(&self) -> (r: TaskResult)
        ensures
            r matches Ok(out) && out.exit_code == 0
                && out.stdout@ == "container "@ + self.image@ + " finished"@,
    {
        let mut line = String::new();
        push_str(&mut line, "  [docker] running ");
        push_str(&mut line, self.image.as_str());
        push_str(&mut line, " with ");
        let cmd = strings_debug_text(&self.command);
        push_str(&mut line, cmd.as_str());
        let _ = write_stdout_line(line.as_str());
        let mut out = String::new();
        push_str(&mut out, "container ");
        push_str(&mut out, self.image.as_str());
        push_str(&mut out, " finished");
        Ok(ExecutionOutput::success(out.as_str()))
    }
}

/// Executes an arbitrary closure.
pub struct ClosureTask<F: Fn() -> TaskResult + Send + Sync> {
    label: String,
    func: F,
}

impl<F: Fn() -> TaskResult + Send + Sync> ClosureTask<F> {
    #[verifier::type_invariant]
    spec fn callable(&self) -> bool {
        self.func.requires(())
    }

    pub fn new(label: &str, func: F) -> (r: Self)
        requires
            func.requires(()),
        ensures
            r.label()@ == label@,
            r.func() == func,
    {
        ClosureTask { label: owned(label), func }
    }

    pub closed spec fn label(&self) -> String {
        self.label
    }

    pub closed spec fn func(&self) -> F {
        self.func
    }
}

impl<F: Fn() -> TaskResult + Send + Sync> ExecutionStrategy for ClosureTask<F> {
    fn name(&self) -> (r: &str)
        ensures
            r@ == "closure"@,
    {
        "closure"
    }

    fn execute(&self) -> (r: TaskResult)
        ensures
            self.func().ensures((), r),
    {
        proof { use_type_invariant(self); }
        let mut line = String::new();
        push_str(&mut line, "  [closure] executing: ");
        push_str(&mut line, self.label.as_str());
        let _ = write_stdout_line(line.as_str());
        (self.func)()
    }
}

/// Per-task timeout. `None` means "wait forever".
#[derive(Debug, Clone)]
pub struct TimeoutConfig {
    pub duration: Option<std::time::Duration>,
}

/// `Duration::from_secs`.
#[verifier::external_body]
fn duration_from_secs(secs: u64) -> std::time::Duration {
    std::time::Duration::from_secs(secs)
}

impl Default for TimeoutConfig {
    fn default() -> (r: Self)
        ensures
            r.duration is None,
    {
        TimeoutConfig { duration: None }
    }
}

impl TimeoutConfig {
    pub fn seconds(secs: u64) -> (r: Self)
        ensures
            r.duration is Some,
    {
        TimeoutConfig { duration: Some(duration_from_secs(secs)) }
    }
}

/// What one attempt at a task means: a final outcome, or a failure that a
/// further attempt may cure, with its description.
#[derive(Debug)]
pub enum Attempt {
    Finished(TaskResult),
    Retry(String),
}

/// Judges one attempt: success with exit code 0 is final; a non-zero exit code
/// or an execution failure may be retried; any other error is final.
pub fn judge_attempt(result: TaskResult) -> (r: Attempt)
    ensures
        result matches Ok(out) && out.exit_code == 0 ==> r == Attempt::Finished(result),
        result is Ok && result->Ok_0.exit_code != 0 ==> (r matches Attempt::Retry(m)
            && m@ == "non-zero exit code "@ + crate::text::signed_decimal(result->Ok_0.exit_code as int) + ": "@
            + result->Ok_0.stderr@),
        result matches Err(TaskError::ExecutionFailed(msg)) ==> (r matches Attempt::Retry(m) && m@ == msg@),
        result is Err && !(result->Err_0 is ExecutionFailed) ==> r == Attempt::Finished(result),
{
    match result {
        Ok(out) => {
            if out.exit_code == 0 {
                Attempt::Finished(Ok(out))
            } else {
                let mut m = String::new();
                push_str(&mut m, "non-zero exit code ");
                crate::text::push_signed(&mut m, out.exit_code as i64);
                push_str(&mut m, ": ");
                push_str(&mut m, out.stderr.as_str());
                Attempt::Retry(m)
            }
        },
        Err(TaskError::ExecutionFailed(msg)) => Attempt::Retry(msg),
        Err(other) => Attempt::Finished(Err(other)),
    }
}

/// The error once every attempt has been used up.
pub fn retries_exhausted(attempts: u32, last_error: String) -> (r: TaskError)
    ensures
        r == (TaskError::MaxRetriesExceeded { attempts, last_error }),
{
    TaskError::MaxRetriesExceeded { attempts, last_error }
}

/// Where a task stands during a run.
#[derive(Debug, Clone)]
pub enum TaskStatus {
    Pending,
    Running,
    Succeeded(ExecutionOutput),
    Failed(TaskError),
}

/// `s` records a failure caused by the failure of the task named `name`.
pub open spec fn dependency_failed(s: TaskStatus, name: Seq<char>) -> bool {
    s matches TaskStatus::Failed(TaskError::DependencyFailed(d)) && d@ == name
}

/// The number of pending tasks.
pub open spec fn num_pending(s: Seq<TaskStatus>) -> nat
    decreases s.len(),
{
    if s.len() == 0 {
        0
    } else {
        num_pending(s.drop_last()) + if s.last() is Pending { 1nat } else { 0nat }
    }
}

/// A task that has ended, by success or failure.
pub open spec fn is_finished(s: TaskStatus) -> bool {
    s is Succeeded || s is Failed
}

/// The number of tasks that have ended.
pub open spec fn num_finished(s: Seq<TaskStatus>) -> nat
    decreases s.len(),
{
    if s.len() == 0 {
        0
    } else {
        num_finished(s.drop_last()) + if is_finished(s.last()) { 1nat } else { 0nat }
    }
}

/// Ended and pending tasks together.
pub open spec fn settled_weight(x: TaskStatus) -> nat {
    if is_finished(x) || x is Pending { 1 } else { 0 }
}

proof fn lemma_num_finished_le(s: Seq<TaskStatus>)
    ensures
        num_finished(s) <= s.len(),
        num_finished(s) == s.len() ==> forall|i: int| 0 <= i < s.len() ==> is_finished(#[trigger] s[i]),
    decreases s.len(),
{
    if s.len() > 0 {
        lemma_num_finished_le(s.drop_last());
        assert forall|i: int| 0 <= i < s.len() - 1 implies s[i] == s.drop_last()[i] by {}
    }
}

/// With every task pending, none has ended.
proof fn lemma_none_finished(s: Seq<TaskStatus>)
    requires
        forall|i: int| 0 <= i < s.len() ==> (#[trigger] s[i]) is Pending,
    ensures
        num_finished(s) == 0,
    decreases s.len(),
{
    if s.len() > 0 {
        lemma_none_finished(s.drop_last());
    }
}

/// Statuses that end alike place by place count alike.
proof fn lemma_finished_alike(s1: Seq<TaskStatus>, s2: Seq<TaskStatus>)
    requires
        s1.len() == s2.len(),
        forall|i: int| 0 <= i < s1.len() ==> is_finished(#[trigger] s1[i]) == is_finished(s2[i]),
    ensures
        num_finished(s1) == num_finished(s2),
    decreases s1.len(),
{
    if s1.len() > 0 {
        lemma_finished_alike(s1.drop_last(), s2.drop_last());
        assert(is_finished(s1[s1.len() - 1]) == is_finished(s2[s2.len() - 1]));
    }
}

/// When every place keeps its weight of ended-or-pending, but `t` gains one,
/// the ended and pending counts together gain one.
proof fn lemma_settled_gain(s1: Seq<TaskStatus>, s2: Seq<TaskStatus>, t: int)
    requires
        s1.len() == s2.len(),
        0 <= t < s1.len(),
        forall|i: int| 0 <= i < s1.len() ==> #[trigger] settled_weight(s2[i]) == settled_weight(s1[i]) + (if i == t { 1nat } else { 0nat }),
    ensures
        num_finished(s2) + num_pending(s2) == num_finished(s1) + num_pending(s1) + 1,
    decreases s1.len(),
{
    let n = s1.len() - 1;
    if t < n {
        assert forall|i: int| 0 <= i < n implies #[trigger] settled_weight(s2.drop_last()[i]) == settled_weight(s1.drop_last()[i]) + (if i == t { 1nat } else { 0nat }) by {
            assert(s2.drop_last()[i] == s2[i] && s1.drop_last()[i] == s1[i]);
        }
        lemma_settled_gain(s1.drop_last(), s2.drop_last(), t);
        assert(settled_weight(s2[n]) == settled_weight(s1[n]));
        assert(is_finished(s2[n]) == is_finished(s2.last()));
    } else {
        lemma_settled_same(s1.drop_last(), s2.drop_last());
        assert(settled_weight(s2[n]) == settled_weight(s1[n]) + 1);
    }
}

proof fn lemma_settled_same(s1: Seq<TaskStatus>, s2: Seq<TaskStatus>)
    requires
        s1.len() == s2.len(),
        forall|i: int| 0 <= i < s1.len() ==> #[trigger] settled_weight(s2[i]) == settled_weight(s1[i]),
    ensures
        num_finished(s2) + num_pending(s2) == num_finished(s1) + num_pending(s1),
    decreases s1.len(),
{
    if s1.len() > 0 {
        let n = s1.len() - 1;
        assert forall|i: int| 0 <= i < n implies #[trigger] settled_weight(s2.drop_last()[i]) == settled_weight(s1.drop_last()[i]) by {
            assert(s2.drop_last()[i] == s2[i] && s1.drop_last()[i] == s1[i]);
        }
        lemma_settled_same(s1.drop_last(), s2.drop_last());
        assert(settled_weight(s2[n]) == settled_weight(s1[n]));
    }
}

/// `c` raised by `k`, stopping at the largest `usize`.
pub open spec fn raised(c: int, k: int) -> int {
    if c + k > usize::MAX { usize::MAX as int } else { c + k }
}

/// Replacing a status that is not pending by another that is not leaves the
/// count as it was.
proof fn lemma_num_pending_same(s: Seq<TaskStatus>, v: int, x: TaskStatus)
    requires
        0 <= v < s.len(),
        !(s[v] is Pending),
        !(x is Pending),
    ensures
        num_pending(s.update(v, x)) == num_pending(s),
    decreases s.len(),
{
    let u = s.update(v, x);
    if v == s.len() - 1 {
        assert(u.drop_last() == s.drop_last());
    } else {
        assert(u.drop_last() == s.drop_last().update(v, x));
        lemma_num_pending_same(s.drop_last(), v, x);
    }
}

/// The count never exceeds the length.
proof fn lemma_num_pending_le(s: Seq<TaskStatus>)
    ensures
        num_pending(s) <= s.len(),
    decreases s.len(),
{
    if s.len() > 0 {
        lemma_num_pending_le(s.drop_last());
    }
}

/// Replacing a pending task's status by another kind lowers the count.
proof fn lemma_num_pending_drop(s: Seq<TaskStatus>, v: int, x: TaskStatus)
    requires
        0 <= v < s.len(),
        s[v] is Pending,
        !(x is Pending),
    ensures
        num_pending(s.update(v, x)) + 1 == num_pending(s),
    decreases s.len(),
{
    let u = s.update(v, x);
    if v == s.len() - 1 {
        assert(u.drop_last() == s.drop_last());
    } else {
        assert(u.drop_last() == s.drop_last().update(v, x));
        lemma_num_pending_drop(s.drop_last(), v, x);
    }
}

/// No task lists the same dependency twice.
pub open spec fn no_repeats(deps: Seq<Vec<usize>>) -> bool {
    forall|t: int, a: int, b: int|
        0 <= t < deps.len() && 0 <= a < b < deps[t]@.len() ==> deps[t]@[a] != deps[t]@[b]
}

/// `rank` gives every task a number above those of all its dependencies.
pub open spec fn ranks(deps: Seq<Vec<usize>>, rank: Seq<nat>) -> bool {
    &&& rank.len() == deps.len()
    &&& forall|t: int, k: int| 0 <= t < deps.len() && 0 <= k < deps[t]@.len()
        ==> #[trigger] rank[deps[t]@[k] as int] < rank[t]
}

/// No chain of dependencies is circular: the tasks can be ranked.
pub open spec fn ranked(deps: Seq<Vec<usize>>) -> bool {
    exists|rank: Seq<nat>| #[trigger] ranks(deps, rank)
}

/// The first position of `v` in `order`.
spec fn first_index(order: Seq<int>, v: int) -> nat {
    choose|p: nat| p < order.len() && order[p as int] == v && forall|q: int| 0 <= q < p ==> order[q] != v
}

proof fn lemma_first_index(order: Seq<int>, v: int)
    requires
        order.contains(v),
    ensures
        first_index(order, v) < order.len(),
        order[first_index(order, v) as int] == v,
        forall|q: int| 0 <= q < first_index(order, v) ==> order[q] != v,
{
    let p = choose|p: int| 0 <= p < order.len() && order[p] == v;
    let q = crate::taskgraph::lemma_first_member(order, set![v], p);
    assert(forall|r: int| 0 <= r < q ==> order[r] != v);
    let w = q as nat;
    assert(w < order.len() && order[w as int] == v && forall|r: int| 0 <= r < w ==> order[r] != v);
}

/// Positions resolved from an acyclic graph of names can be ranked: a task's
/// first place in a topological order.
proof fn lemma_ranked(ids: Seq<Seq<char>>, dnames: Seq<Seq<Seq<char>>>, pos: Seq<Vec<usize>>)
    requires
        crate::taskgraph::acyclic(ids, dnames),
        pos.len() == ids.len(),
        dnames.len() == ids.len(),
        forall|t: int, k: int| 0 <= t < pos.len() && 0 <= k < pos[t]@.len() ==> {
            &&& #[trigger] pos[t]@[k] < ids.len()
            &&& k < dnames[t].len()
            &&& ids[pos[t]@[k] as int] == dnames[t][k]
        },
    ensures
        ranked(pos),
{
    let order = choose|order: Seq<int>| crate::taskgraph::is_topological_order(ids, dnames, order);
    let n = ids.len();
    let rank = Seq::new(n, |t: int| first_index(order, t));
    assert forall|t: int, k: int| 0 <= t < pos.len() && 0 <= k < pos[t]@.len()
        implies #[trigger] rank[pos[t]@[k] as int] < rank[t] by {
        let d = pos[t]@[k] as int;
        assert(order.contains(t));
        assert(order.contains(d));
        lemma_first_index(order, t);
        lemma_first_index(order, d);
        let p = first_index(order, t) as int;
        assert(crate::taskgraph::depends(ids, dnames, order[p], d));
        assert(order.take(p).contains(d));
        let q = choose|q: int| 0 <= q < order.take(p).len() && order.take(p)[q] == d;
        assert(order[q] == d);
    }
    assert(ranks(pos, rank));
}

/// Some task has not ended when fewer than all have.
proof fn lemma_some_unfinished(s: Seq<TaskStatus>)
    requires
        num_finished(s) < s.len(),
    ensures
        exists|i: int| 0 <= i < s.len() && !is_finished(#[trigger] s[i]),
    decreases s.len(),
{
    if s.len() > 0 {
        if is_finished(s.last()) {
            lemma_some_unfinished(s.drop_last());
            let i = choose|i: int| 0 <= i < s.drop_last().len() && !is_finished(#[trigger] s.drop_last()[i]);
            assert(s[i] == s.drop_last()[i]);
        } else {
            assert(!is_finished(s[s.len() - 1]));
        }
    }
}

/// A task of `ds` left with nothing to wait for is among those released.
proof fn lemma_newly_ready_has(deps: Seq<Vec<usize>>, waiting: Seq<Vec<bool>>, t: usize, ds: Seq<usize>, y: usize)
    requires
        ds.contains(y),
        all_clear(released(deps[y as int]@, waiting[y as int]@, t)),
    ensures
        newly_ready(deps, waiting, t, ds).contains(y),
    decreases ds.len(),
{
    let rest = newly_ready(deps, waiting, t, ds.drop_last());
    if ds.last() == y {
        assert(newly_ready(deps, waiting, t, ds) == rest.push(y));
        assert(rest.push(y)[rest.len() as int] == y);
    } else {
        let i = choose|i: int| 0 <= i < ds.len() && ds[i] == y;
        assert(ds.drop_last()[i] == y);
        lemma_newly_ready_has(deps, waiting, t, ds.drop_last(), y);
        let j = choose|j: int| 0 <= j < rest.len() && rest[j] == y;
        if all_clear(released(deps[ds.last() as int]@, waiting[ds.last() as int]@, t)) {
            assert(rest.push(ds.last())[j] == y);
        }
    }
}

/// The message a scheduler gives for a graph it cannot run.
pub open spec fn graph_error_text(ids: Seq<Seq<char>>, deps: Seq<Seq<Seq<char>>>, e: GraphError) -> Seq<char> {
    match e {
        GraphError::DuplicateIds => "duplicate task IDs detected"@,
        GraphError::UnknownDependency { task, dep } => "task '"@ + ids[task as int]
            + "' depends on unknown task '"@ + deps[task as int][dep as int] + "'"@,
        GraphError::Cycle => "cycle detected in task dependencies"@,
    }
}

/// The graph passes every check.
pub open spec fn check_graph_ok(ids: Seq<Seq<char>>, deps: Seq<Seq<Seq<char>>>) -> bool {
    graph_verdict(ids, deps, Ok(()))
}

/// The position of each dependency, for a graph whose dependencies all name tasks.
fn resolve(ids: &Vec<String>, deps: &Vec<Vec<String>>) -> (r: Vec<Vec<usize>>)
    requires
        ids@.len() == deps@.len(),
        crate::taskgraph::all_known(names(ids@), dep_names(deps@)),
    ensures
        r@.len() == deps@.len(),
        forall|t: int| 0 <= t < r@.len() ==> (#[trigger] r@[t])@.len() == deps@[t]@.len(),
        forall|t: int, k: int| 0 <= t < r@.len() && 0 <= k < r@[t]@.len()
            ==> #[trigger] r@[t]@[k] < ids@.len() && ids@[r@[t]@[k] as int]@ == deps@[t]@[k]@,
{
    let mut r: Vec<Vec<usize>> = Vec::new();
    let mut t: usize = 0;
    while t < deps.len()
        invariant
            ids@.len() == deps@.len(),
            crate::taskgraph::all_known(names(ids@), dep_names(deps@)),
            0 <= t <= deps@.len(),
            r@.len() == t,
            forall|x: int| 0 <= x < t ==> (#[trigger] r@[x])@.len() == deps@[x]@.len(),
            forall|x: int, k: int| 0 <= x < t && 0 <= k < r@[x]@.len()
                ==> #[trigger] r@[x]@[k] < ids@.len() && ids@[r@[x]@[k] as int]@ == deps@[x]@[k]@,
        decreases deps@.len() - t,
    {
        let mut row: Vec<usize> = Vec::new();
        let mut k: usize = 0;
        while k < deps[t].len()
            invariant
                ids@.len() == deps@.len(),
                crate::taskgraph::all_known(names(ids@), dep_names(deps@)),
                0 <= t < deps@.len(),
                0 <= k <= deps@[t as int]@.len(),
                row@.len() == k,
                forall|q: int| 0 <= q < k ==> #[trigger] row@[q] < ids@.len() && ids@[row@[q] as int]@ == deps@[t as int]@[q]@,
            decreases deps@[t as int]@.len() - k,
        {
            let mut j: usize = 0;
            let mut found: Option<usize> = None;
            proof {
                assert(dep_names(deps@)[t as int][k as int] == deps@[t as int]@[k as int]@);
                let w = choose|w: int| 0 <= w < names(ids@).len() && names(ids@)[w] == dep_names(deps@)[t as int][k as int];
                assert(ids@[w]@ == deps@[t as int]@[k as int]@);
            }
            while j < ids.len() && found.is_none()
                invariant
                    0 <= j <= ids@.len(),
                    0 <= t < deps@.len(),
                    0 <= k < deps@[t as int]@.len(),
                    found matches Some(x) ==> x < ids@.len() && ids@[x as int]@ == deps@[t as int]@[k as int]@,
                    found is None ==> forall|q: int| 0 <= q < j ==> ids@[q]@ != deps@[t as int]@[k as int]@,
                    exists|w: int| 0 <= w < ids@.len() && ids@[w]@ == deps@[t as int]@[k as int]@,
                decreases ids@.len() - j, if found is None { 1int } else { 0int },
            {
                if crate::text::str_eq(ids[j].as_str(), deps[t][k].as_str()) {
                    found = Some(j);
                } else {
                    j = j + 1;
                }
            }
            match found {
                Some(x) => {
                    row.push(x);
                },
                None => {
                    proof {
                        let w = choose|w: int| 0 <= w < ids@.len() && ids@[w]@ == deps@[t as int]@[k as int]@;
                        assert(false);
                    }
                },
            }
            k = k + 1;
        }
        r.push(row);
        t = t + 1;
    }
    r
}

/// The scheduling decisions of one run: which tasks are ready, which are
/// running, and what each outcome does to the tasks that depend on it.
pub struct RunState {
    ids: Vec<String>,
    deps: Vec<Vec<usize>>,
    dependents: Vec<Vec<usize>>,
    waiting: Vec<Vec<bool>>,
    statuses: Vec<TaskStatus>,
    ready: Vec<usize>,
    head: usize,
    completed: usize,
}

/// A task's waits once `t` has succeeded: every wait on `t` is cleared.
pub open spec fn released(deps: Seq<usize>, waits: Seq<bool>, t: usize) -> Seq<bool> {
    Seq::new(waits.len(), |k: int| deps[k] != t && waits[k])
}

/// Nothing is waited for.
pub open spec fn all_clear(waits: Seq<bool>) -> bool {
    forall|k: int| 0 <= k < waits.len() ==> !#[trigger] waits[k]
}

/// The tasks of `ds`, in order, that are left with nothing to wait for once
/// their waits on `t` are cleared.
pub open spec fn newly_ready(deps: Seq<Vec<usize>>, waiting: Seq<Vec<bool>>, t: usize, ds: Seq<usize>) -> Seq<usize>
    decreases ds.len(),
{
    if ds.len() == 0 {
        Seq::empty()
    } else {
        let x = ds.last();
        let rest = newly_ready(deps, waiting, t, ds.drop_last());
        if all_clear(released(deps[x as int]@, waiting[x as int]@, t)) {
            rest.push(x)
        } else {
            rest
        }
    }
}

impl RunState {
    pub closed spec fn ids(&self) -> Seq<Seq<char>> {
        names(self.ids@)
    }

    /// The positions of each task's dependencies.
    pub closed spec fn deps(&self) -> Seq<Vec<usize>> {
        self.deps@
    }

    pub closed spec fn statuses(&self) -> Seq<TaskStatus> {
        self.statuses@
    }

    /// Tasks that may start, in the order they became ready.
    pub closed spec fn queued(&self) -> Seq<usize> {
        self.ready@.skip(self.head as int)
    }

    /// Tasks finished, by running or by the failure of a dependency.
    pub closed spec fn completed(&self) -> nat {
        self.completed as nat
    }

    /// The count of finished tasks is the number of tasks that have ended.
    pub closed spec fn counted(&self) -> bool {
        self.completed as nat == num_finished(self.statuses@)
    }

    /// The run law: once the count of finished tasks reaches the number of
    /// tasks, every task has ended, by success or failure, and a task that
    /// succeeded ran after every one of its dependencies had succeeded (when
    /// no task lists a dependency twice).
    pub proof fn lemma_done(&self)
        requires
            self.wf(),
            self.counted(),
            no_repeats(self.deps()),
            self.completed() >= self.ids().len(),
        ensures
            forall|t: int| 0 <= t < self.statuses().len() ==> is_finished(#[trigger] self.statuses()[t]),
            forall|t: int, k: int| 0 <= t < self.statuses().len() && self.statuses()[t] is Succeeded
                && 0 <= k < self.deps()[t]@.len() ==> #[trigger] self.statuses()[self.deps()[t]@[k] as int] is Succeeded,
    {
        lemma_num_finished_le(self.statuses@);
        assert(self.orderly());
        assert forall|t: int, k: int| 0 <= t < self.statuses().len() && self.statuses()[t] is Succeeded
            && 0 <= k < self.deps()[t]@.len() implies #[trigger] self.statuses()[self.deps()[t]@[k] as int] is Succeeded by {
            assert(!self.waiting@[t]@[k]);
        }
    }

    /// What keeps a run moving: no chain of dependencies is circular, and a
    /// pending task has no failed dependency, no longer waits for one that
    /// succeeded, and is queued once it waits for nothing.
    pub closed spec fn live(&self) -> bool {
        let n = self.ids@.len();
        &&& ranked(self.deps@)
        &&& forall|x: int, k: int| 0 <= x < n && 0 <= k < self.deps@[x]@.len() && self.statuses@[x] is Pending
            ==> !((#[trigger] self.statuses@[self.deps@[x]@[k] as int]) is Failed)
        &&& forall|x: int, k: int| 0 <= x < n && 0 <= k < self.deps@[x]@.len() && self.statuses@[x] is Pending
            && (#[trigger] self.statuses@[self.deps@[x]@[k] as int]) is Succeeded ==> !self.waiting@[x]@[k]
        &&& forall|x: int| 0 <= x < n && (#[trigger] self.statuses@[x]) is Pending && all_clear(self.waiting@[x]@)
            ==> self.ready@.skip(self.head as int).contains(x as usize)
    }

    /// From a pending task, following pending dependencies down the ranks
    /// reaches a pending task none of whose dependencies is pending.
    proof fn lemma_lowest_pending(&self, rank: Seq<nat>, x: int) -> (p: int)
        requires
            self.wf(),
            ranks(self.deps@, rank),
            0 <= x < self.ids@.len(),
            self.statuses@[x] is Pending,
        ensures
            0 <= p < self.ids@.len(),
            self.statuses@[p] is Pending,
            forall|k: int| 0 <= k < self.deps@[p]@.len() ==> !(#[trigger] self.statuses@[self.deps@[p]@[k] as int] is Pending),
        decreases rank[x],
    {
        if exists|k: int| 0 <= k < self.deps@[x]@.len() && #[trigger] self.statuses@[self.deps@[x]@[k] as int] is Pending {
            let k = choose|k: int| 0 <= k < self.deps@[x]@.len() && #[trigger] self.statuses@[self.deps@[x]@[k] as int] is Pending;
            assert(rank[self.deps@[x]@[k] as int] < rank[x]);
            self.lemma_lowest_pending(rank, self.deps@[x]@[k] as int)
        } else {
            x
        }
    }

    /// The progress law: while some task has not finished and none is
    /// running, some task is queued, so a run never stalls before every task
    /// has finished.
    pub proof fn lemma_progress(&self)
        requires
            self.wf(),
            self.live(),
            self.counted(),
            !(self.completed() >= self.ids().len()),
            forall|t: int| 0 <= t < self.statuses().len() ==> !(#[trigger] self.statuses()[t] is Running),
        ensures
            self.queued().len() > 0,
    {
        let n = self.ids@.len();
        lemma_some_unfinished(self.statuses@);
        let x = choose|i: int| 0 <= i < self.statuses@.len() && !is_finished(#[trigger] self.statuses@[i]);
        assert(!(self.statuses()[x] is Running));
        let rank = choose|rank: Seq<nat>| #[trigger] ranks(self.deps@, rank);
        let p = self.lemma_lowest_pending(rank, x);
        assert forall|k: int| 0 <= k < self.waiting@[p]@.len() implies !#[trigger] self.waiting@[p]@[k] by {
            let d = self.deps@[p]@[k] as int;
            assert(!(self.statuses@[d] is Pending));
            assert(!(self.statuses()[d] is Running));
            assert(!(self.statuses@[d] is Failed));
            assert(self.statuses@[d] is Succeeded);
        }
        assert(self.statuses@[p] is Pending);
        assert(all_clear(self.waiting@[p]@));
        assert(self.ready@.skip(self.head as int).contains(p as usize));
    }

    /// The internal bookkeeping agrees with itself.
    pub closed spec fn wf(&self) -> bool {
        let n = self.ids@.len();
        &&& self.deps@.len() == n
        &&& self.dependents@.len() == n
        &&& self.waiting@.len() == n
        &&& self.statuses@.len() == n
        &&& self.head <= self.ready@.len()
        &&& forall|t: int| 0 <= t < n ==> (#[trigger] self.waiting@[t])@.len() == self.deps@[t]@.len()
        &&& forall|t: int, k: int| 0 <= t < n && 0 <= k < self.deps@[t]@.len() ==> #[trigger] self.deps@[t]@[k] < n
        &&& forall|j: int, m: int| 0 <= j < n && 0 <= m < self.dependents@[j]@.len() ==> #[trigger] self.dependents@[j]@[m] < n
        &&& forall|q: int| 0 <= q < self.ready@.len() ==> #[trigger] self.ready@[q] < n
        &&& forall|t: int, k: int| 0 <= t < n && 0 <= k < self.deps@[t]@.len()
            ==> self.dependents@[#[trigger] self.deps@[t]@[k] as int]@.contains(t as usize)
        &&& forall|j: int, m: int| 0 <= j < n && 0 <= m < self.dependents@[j]@.len()
            ==> self.deps@[#[trigger] self.dependents@[j]@[m] as int]@.contains(j as usize)
        &&& forall|t: int, k: int| 0 <= t < n && 0 <= k < self.deps@[t]@.len() ==> #[trigger] self.deps@[t]@[k] != t
        &&& no_repeats(self.deps@) ==> self.orderly()
    }

    /// A task with no dependency at all starts out ready.
    pub closed spec fn is_initial(&self) -> bool {
        &&& forall|t: int| 0 <= t < self.statuses@.len() ==> self.statuses@[t] is Pending
        &&& self.completed == 0
        &&& forall|t: int| 0 <= t < self.ids@.len()
            ==> (self.deps@[t]@.len() == 0 <==> #[trigger] self.ready@.skip(self.head as int).contains(t as usize))
    }

    /// What holds when no task lists a dependency twice: a cleared wait is a
    /// dependency that succeeded, queued tasks are pending with nothing left to
    /// wait for, each queued once, and a task that has started waits for nothing.
    closed spec fn orderly(&self) -> bool {
        let n = self.ids@.len();
        &&& forall|t: int, k: int| 0 <= t < n && 0 <= k < self.deps@[t]@.len() && !(#[trigger] self.waiting@[t]@[k])
            ==> self.statuses@[self.deps@[t]@[k] as int] is Succeeded
        &&& forall|q: int| self.head <= q < self.ready@.len()
            ==> (#[trigger] self.statuses@[self.ready@[q] as int]) is Pending
        &&& forall|q: int, k: int| self.head <= q < self.ready@.len() && 0 <= k < self.deps@[self.ready@[q] as int]@.len()
            ==> !(#[trigger] self.waiting@[self.ready@[q] as int]@[k])
        &&& forall|a: int, b: int| self.head <= a < b < self.ready@.len() ==> self.ready@[a] != self.ready@[b]
        &&& forall|j: int, a: int, b: int| 0 <= j < n && 0 <= a < b < self.dependents@[j]@.len()
            ==> self.dependents@[j]@[a] != self.dependents@[j]@[b]
        &&& forall|t: int, k: int| 0 <= t < n && 0 <= k < self.deps@[t]@.len()
            && (self.statuses@[t] is Running || self.statuses@[t] is Succeeded) ==> !(#[trigger] self.waiting@[t]@[k])
        &&& forall|t: int| 0 <= t < n && (#[trigger] self.statuses@[t]) is Failed
            ==> (forall|k: int| 0 <= k < self.deps@[t]@.len() ==> !self.waiting@[t]@[k])
                || (exists|k: int| 0 <= k < self.deps@[t]@.len() && self.statuses@[self.deps@[t]@[k] as int] is Failed)
    }

    /// Starting the queued tasks of `batch` keeps a run live.
    proof fn lemma_live_after_start(&self, before: &RunState, batch: Seq<usize>, h0: int)
        requires
            before.wf(),
            before.live(),
            self.ids == before.ids,
            self.deps == before.deps,
            self.waiting == before.waiting,
            self.ready == before.ready,
            h0 == before.head,
            self.head == h0 + batch.len(),
            self.head <= self.ready@.len(),
            batch == self.ready@.subrange(h0, self.head as int),
            self.statuses@.len() == before.statuses@.len(),
            forall|t: int| 0 <= t < before.statuses@.len() ==> #[trigger] self.statuses@[t] == (if batch.contains(t as usize) {
                TaskStatus::Running
            } else {
                before.statuses@[t]
            }),
        ensures
            self.live(),
    {
        let n = self.ids@.len();
        let s0 = before.statuses@;
        assert forall|x: int, k: int| 0 <= x < n && 0 <= k < self.deps@[x]@.len() && self.statuses@[x] is Pending
            implies !((#[trigger] self.statuses@[self.deps@[x]@[k] as int]) is Failed) by {
            let d = self.deps@[x]@[k] as int;
            assert(self.statuses@[x] == s0[x]);
            assert(self.statuses@[d] == s0[d] || self.statuses@[d] is Running);
            assert(!(s0[before.deps@[x]@[k] as int] is Failed));
        }
        assert forall|x: int, k: int| 0 <= x < n && 0 <= k < self.deps@[x]@.len() && self.statuses@[x] is Pending
            && (#[trigger] self.statuses@[self.deps@[x]@[k] as int]) is Succeeded implies !self.waiting@[x]@[k] by {
            let d = self.deps@[x]@[k] as int;
            assert(self.statuses@[x] == s0[x]);
            assert(self.statuses@[d] == s0[d] || self.statuses@[d] is Running);
            assert(s0[before.deps@[x]@[k] as int] is Succeeded);
        }
        assert forall|x: int| 0 <= x < n && (#[trigger] self.statuses@[x]) is Pending && all_clear(self.waiting@[x]@)
            implies self.ready@.skip(self.head as int).contains(x as usize) by {
            assert(!batch.contains(x as usize));
            assert(s0[x] is Pending);
            assert(before.ready@.skip(h0).contains(x as usize));
            let q = choose|q: int| 0 <= q < before.ready@.skip(h0).len() && before.ready@.skip(h0)[q] == x as usize;
            if q < batch.len() {
                assert(batch[q] == x as usize);
            }
            assert(self.ready@.skip(self.head as int)[q - batch.len()] == x as usize);
        }
    }

    /// A success that releases the tasks waiting on `t` keeps a run live.
    #[verifier::spinoff_prover]
    #[verifier::rlimit(50)]
    proof fn lemma_live_after_success(&self, before: &RunState, mid: &RunState, t: usize)
        requires
            before.live(),
            mid.wf(),
            mid.ids@.len() <= usize::MAX,
            t < before.statuses@.len(),
            mid.ids == before.ids,
            mid.deps == before.deps,
            mid.waiting == before.waiting,
            mid.ready == before.ready,
            mid.head == before.head,
            mid.statuses@.len() == before.statuses@.len(),
            mid.statuses@[t as int] is Succeeded,
            forall|x: int| 0 <= x < before.statuses@.len() && x != t ==> #[trigger] mid.statuses@[x] == before.statuses@[x],
            self.ids == mid.ids,
            self.deps == mid.deps,
            self.statuses == mid.statuses,
            self.head == mid.head,
            forall|y: int| 0 <= y < mid.ids@.len() ==> #[trigger] self.waiting@[y]@
                == (if mid.dependents@[t as int]@.contains(y as usize) {
                    released(mid.deps@[y]@, mid.waiting@[y]@, t)
                } else {
                    mid.waiting@[y]@
                }),
            self.ready@ == mid.ready@ + newly_ready(mid.deps@, mid.waiting@, t, mid.dependents@[t as int]@),
        ensures
            self.live(),
    {
        let n = self.ids@.len();
        let s0 = before.statuses@;
        assert forall|x: int, k: int| 0 <= x < n && 0 <= k < self.deps@[x]@.len() && self.statuses@[x] is Pending
            implies !((#[trigger] self.statuses@[self.deps@[x]@[k] as int]) is Failed) by {
            let d = self.deps@[x]@[k] as int;
            assert(mid.statuses@[x] == s0[x]);
            if d != t {
                assert(mid.statuses@[d] == s0[d]);
                assert(!(s0[before.deps@[x]@[k] as int] is Failed));
            }
        }
        assert forall|x: int, k: int| 0 <= x < n && 0 <= k < self.deps@[x]@.len() && self.statuses@[x] is Pending
            && (#[trigger] self.statuses@[self.deps@[x]@[k] as int]) is Succeeded implies !self.waiting@[x]@[k] by {
            let d = self.deps@[x]@[k] as int;
            assert(mid.statuses@[x] == s0[x]);
            if d == t {
                assert(mid.dependents@[mid.deps@[x]@[k] as int]@.contains(x as usize));
                assert(self.waiting@[x]@ == released(mid.deps@[x]@, mid.waiting@[x]@, t));
            } else {
                assert(mid.statuses@[d] == s0[d]);
                assert(s0[before.deps@[x]@[k] as int] is Succeeded);
                assert(!before.waiting@[x]@[k]);
            }
        }
        assert forall|x: int| 0 <= x < n && (#[trigger] self.statuses@[x]) is Pending && all_clear(self.waiting@[x]@)
            implies self.ready@.skip(self.head as int).contains(x as usize) by {
            let h = self.head as int;
            if mid.dependents@[t as int]@.contains(x as usize) {
                assert((x as usize) as int == x);
                assert(self.waiting@[x]@ == released(mid.deps@[x]@, mid.waiting@[x]@, t));
                lemma_newly_ready_has(mid.deps@, mid.waiting@, t, mid.dependents@[t as int]@, x as usize);
                let nr = newly_ready(mid.deps@, mid.waiting@, t, mid.dependents@[t as int]@);
                let j = choose|j: int| 0 <= j < nr.len() && nr[j] == x as usize;
                assert(self.ready@[mid.ready@.len() + j] == x as usize);
                assert(self.ready@.skip(h)[mid.ready@.len() + j - h] == x as usize);
            } else {
                assert(self.waiting@[x]@ == before.waiting@[x]@);
                assert(mid.statuses@[x] == s0[x]);
                assert(before.ready@.skip(h).contains(x as usize));
                let q = choose|q: int| 0 <= q < before.ready@.skip(h).len() && before.ready@.skip(h)[q] == x as usize;
                assert(self.ready@[h + q] == x as usize);
                assert(self.ready@.skip(h)[q] == x as usize);
            }
        }
    }

    /// A failure and its cascade keep a run live.
    proof fn lemma_live_after_failure(&self, before: &RunState, t: usize)
        requires
            before.wf(),
            before.live(),
            t < before.statuses@.len(),
            self.ids == before.ids,
            self.deps == before.deps,
            self.waiting == before.waiting,
            self.ready == before.ready,
            self.head == before.head,
            self.statuses@.len() == before.statuses@.len(),
            self.statuses@[t as int] is Failed,
            forall|x: int| 0 <= x < before.statuses@.len() && x != t ==> #[trigger] self.statuses@[x] == before.statuses@[x]
                || (before.statuses@[x] is Pending && self.statuses@[x] is Failed),
            forall|x: int, k: int| 0 <= x < before.statuses@.len() && 0 <= k < before.deps@[x]@.len()
                && self.statuses@[x] is Pending
                && (#[trigger] self.statuses@[before.deps@[x]@[k] as int]) is Failed
                ==> before.statuses@[before.deps@[x]@[k] as int] is Failed,
        ensures
            self.live(),
    {
        let n = self.ids@.len();
        let s0 = before.statuses@;
        assert forall|x: int, k: int| 0 <= x < n && 0 <= k < self.deps@[x]@.len() && self.statuses@[x] is Pending
            implies !((#[trigger] self.statuses@[self.deps@[x]@[k] as int]) is Failed) by {
            assert(s0[x] is Pending);
            if self.statuses@[self.deps@[x]@[k] as int] is Failed {
                assert(s0[before.deps@[x]@[k] as int] is Failed);
            }
        }
        assert forall|x: int, k: int| 0 <= x < n && 0 <= k < self.deps@[x]@.len() && self.statuses@[x] is Pending
            && (#[trigger] self.statuses@[self.deps@[x]@[k] as int]) is Succeeded implies !self.waiting@[x]@[k] by {
            let d = self.deps@[x]@[k] as int;
            assert(s0[x] is Pending);
            assert(self.statuses@[d] == s0[d]);
            assert(s0[before.deps@[x]@[k] as int] is Succeeded);
        }
        assert forall|x: int| 0 <= x < n && (#[trigger] self.statuses@[x]) is Pending && all_clear(self.waiting@[x]@)
            implies self.ready@.skip(self.head as int).contains(x as usize) by {
            assert(s0[x] is Pending);
        }
    }

    /// Sets up a run of the given tasks, or explains why they cannot run:
    /// duplicate names, a dependency that names no task, or a cycle.
    pub fn new(ids: Vec<String>, deps: Vec<Vec<String>>) -> (r: Result<RunState, String>)
        requires
            ids@.len() == deps@.len(),
        ensures
            r matches Ok(st) ==> st.wf() && st.live() && st.is_initial() && st.counted() && st.ids() == names(ids@)
                && check_graph_ok(names(ids@), dep_names(deps@))
                && st.deps().len() == deps@.len()
                && forall|t: int, k: int| 0 <= t < deps@.len() && 0 <= k < deps@[t]@.len()
                    ==> (#[trigger] st.deps()[t]@[k]) < ids@.len() && ids@[st.deps()[t]@[k] as int]@ == deps@[t]@[k]@,
            r matches Err(m) ==> exists|e: GraphError| graph_verdict(names(ids@), dep_names(deps@), Err(e))
                && m@ == graph_error_text(names(ids@), dep_names(deps@), e),
    {
        match check_graph(ids.as_slice(), deps.as_slice()) {
            Err(e) => {
                let mut m = String::new();
                match e {
                    GraphError::DuplicateIds => {
                        push_str(&mut m, "duplicate task IDs detected");
                    },
                    GraphError::UnknownDependency { task, dep } => {
                        push_str(&mut m, "task '");
                        push_str(&mut m, ids[task].as_str());
                        push_str(&mut m, "' depends on unknown task '");
                        push_str(&mut m, deps[task][dep].as_str());
                        push_str(&mut m, "'");
                        proof {
                            assert(names(ids@)[task as int] == ids@[task as int]@);
                            assert(dep_names(deps@)[task as int] == names(deps@[task as int]@));
                            assert(dep_names(deps@)[task as int][dep as int] == deps@[task as int]@[dep as int]@);
                        }
                    },
                    GraphError::Cycle => {
                        push_str(&mut m, "cycle detected in task dependencies");
                    },
                }
                assert(graph_verdict(names(ids@), dep_names(deps@), Err(e)));
                assert(m@ == graph_error_text(names(ids@), dep_names(deps@), e));
                return Err(m);
            },
            Ok(()) => {},
        }
        let pos = resolve(&ids, &deps);
        let n = ids.len();
        proof {
            assert forall|t: int, k: int| 0 <= t < n && 0 <= k < pos@[t]@.len() implies #[trigger] pos@[t]@[k] != t by {
                crate::taskgraph::lemma_acyclic_irreflexive(names(ids@), dep_names(deps@), t);
                if pos@[t]@[k] == t {
                    assert(names(ids@)[t] == ids@[t]@);
                    assert(dep_names(deps@)[t] == names(deps@[t]@));
                    assert(dep_names(deps@)[t][k] == deps@[t]@[k]@);
                    assert(crate::taskgraph::depends(names(ids@), dep_names(deps@), t, t));
                }
            }
        }
        let mut dependents: Vec<Vec<usize>> = Vec::new();
        let mut j: usize = 0;
        while j < n
            invariant
                n == ids@.len(),
                n == pos@.len(),
                forall|t: int| 0 <= t < n ==> (#[trigger] pos@[t])@.len() == deps@[t]@.len(),
                forall|t: int, k: int| 0 <= t < n && 0 <= k < pos@[t]@.len() ==> #[trigger] pos@[t]@[k] < n,
                0 <= j <= n,
                dependents@.len() == j,
                forall|x: int, m: int| 0 <= x < j && 0 <= m < dependents@[x]@.len() ==> #[trigger] dependents@[x]@[m] < n,
                forall|t: int, k: int| 0 <= t < n && 0 <= k < pos@[t]@.len() && #[trigger] pos@[t]@[k] < j
                    ==> dependents@[pos@[t]@[k] as int]@.contains(t as usize),
                forall|x: int, m: int| 0 <= x < j && 0 <= m < dependents@[x]@.len()
                    ==> pos@[#[trigger] dependents@[x]@[m] as int]@.contains(x as usize),
                no_repeats(pos@) ==> forall|x: int, a: int, b: int| 0 <= x < j && 0 <= a < b < dependents@[x]@.len()
                    ==> dependents@[x]@[a] != dependents@[x]@[b],
            decreases n - j,
        {
            let mut row: Vec<usize> = Vec::new();
            let mut t: usize = 0;
            while t < n
                invariant
                    n == pos@.len(),
                    forall|t2: int, k: int| 0 <= t2 < n && 0 <= k < pos@[t2]@.len() ==> #[trigger] pos@[t2]@[k] < n,
                    0 <= j < n,
                    0 <= t <= n,
                    forall|m: int| 0 <= m < row@.len() ==> #[trigger] row@[m] < t,
                    forall|t2: int, k: int| 0 <= t2 < t && 0 <= k < pos@[t2]@.len() && #[trigger] pos@[t2]@[k] == j
                        ==> row@.contains(t2 as usize),
                    forall|m: int| 0 <= m < row@.len() ==> pos@[#[trigger] row@[m] as int]@.contains(j),
                    no_repeats(pos@) ==> forall|a: int, b: int| 0 <= a < b < row@.len() ==> row@[a] < row@[b],
                decreases n - t,
            {
                let mut k: usize = 0;
                while k < pos[t].len()
                    invariant
                        n == pos@.len(),
                        0 <= j < n,
                        0 <= t < n,
                        0 <= k <= pos@[t as int]@.len(),
                        forall|m: int| 0 <= m < row@.len() ==> #[trigger] row@[m] <= t,
                        forall|t2: int, q: int| 0 <= t2 < t && 0 <= q < pos@[t2]@.len() && #[trigger] pos@[t2]@[q] == j
                            ==> row@.contains(t2 as usize),
                        forall|q: int| 0 <= q < k && #[trigger] pos@[t as int]@[q] == j ==> row@.contains(t),
                        forall|m: int| 0 <= m < row@.len() ==> pos@[#[trigger] row@[m] as int]@.contains(j),
                        no_repeats(pos@) ==> forall|a: int, b: int| 0 <= a < b < row@.len() ==> row@[a] < row@[b],
                        no_repeats(pos@) ==> (row@.contains(t) ==> exists|q: int| 0 <= q < k && pos@[t as int]@[q] == j),
                        no_repeats(pos@) ==> forall|m: int| 0 <= m < row@.len() && row@[m] == t ==> m == row@.len() - 1,
                    decreases pos@[t as int]@.len() - k,
                {
                    if pos[t][k] == j {
                        let ghost old_row = row@;
                        row.push(t);
                        proof {
                            assert(row@[row@.len() - 1] == t);
                            assert(pos@[t as int]@[k as int] == j);
                            assert(pos@[t as int]@.contains(j));
                            assert forall|m: int| 0 <= m < row@.len() implies pos@[#[trigger] row@[m] as int]@.contains(j) by {
                                if m < old_row.len() {
                                    assert(row@[m] == old_row[m]);
                                }
                            }
                            assert forall|t2: int, q: int| 0 <= t2 < t && 0 <= q < pos@[t2]@.len() && #[trigger] pos@[t2]@[q] == j
                                implies row@.contains(t2 as usize) by {
                                let w = choose|w: int| 0 <= w < old_row.len() && old_row[w] == t2 as usize;
                                assert(row@[w] == t2 as usize);
                            }
                            if no_repeats(pos@) {
                                if old_row.contains(t) {
                                    let q = choose|q: int| 0 <= q < k && pos@[t as int]@[q] == j;
                                    assert(pos@[t as int]@[q] != pos@[t as int]@[k as int]);
                                }
                                assert forall|a: int, b: int| 0 <= a < b < row@.len() implies row@[a] < row@[b] by {
                                    if b == row@.len() - 1 {
                                        assert(old_row[a] <= t);
                                        if old_row[a] == t {
                                            assert(old_row.contains(t));
                                        }
                                    } else {
                                        assert(row@[a] == old_row[a]);
                                        assert(row@[b] == old_row[b]);
                                    }
                                }
                                assert forall|m: int| 0 <= m < row@.len() && row@[m] == t implies m == row@.len() - 1 by {
                                    if m < old_row.len() {
                                        assert(old_row[m] == t);
                                        assert(old_row.contains(t));
                                    }
                                }
                                assert(row@.contains(t) ==> exists|q: int| 0 <= q < k + 1 && pos@[t as int]@[q] == j);
                            }
                        }
                    }
                    k = k + 1;
                }
                t = t + 1;
            }
            let ghost old_dep = dependents@;
            dependents.push(row);
            proof {
                if no_repeats(pos@) {
                    assert forall|x: int, a: int, b: int| 0 <= x < j + 1 && 0 <= a < b < dependents@[x]@.len()
                        implies dependents@[x]@[a] != dependents@[x]@[b] by {
                        if x < j {
                            assert(dependents@[x] == old_dep[x]);
                        }
                    }
                }
                assert forall|x: int, m: int| 0 <= x < j + 1 && 0 <= m < dependents@[x]@.len()
                    implies pos@[#[trigger] dependents@[x]@[m] as int]@.contains(x as usize) by {
                    if x < j {
                        assert(dependents@[x] == old_dep[x]);
                    }
                }
                assert forall|t2: int, k: int| 0 <= t2 < n && 0 <= k < pos@[t2]@.len() && #[trigger] pos@[t2]@[k] < j + 1
                    implies dependents@[pos@[t2]@[k] as int]@.contains(t2 as usize) by {
                    if pos@[t2]@[k] < j {
                        assert(dependents@[pos@[t2]@[k] as int] == old_dep[pos@[t2]@[k] as int]);
                    }
                }
            }
            j = j + 1;
        }
        let mut waiting: Vec<Vec<bool>> = Vec::new();
        let mut statuses: Vec<TaskStatus> = Vec::new();
        let mut ready: Vec<usize> = Vec::new();
        let mut t: usize = 0;
        while t < n
            invariant
                n == pos@.len(),
                forall|t2: int| 0 <= t2 < n ==> (#[trigger] pos@[t2])@.len() == deps@[t2]@.len(),
                0 <= t <= n,
                waiting@.len() == t,
                statuses@.len() == t,
                forall|x: int| 0 <= x < t ==> (#[trigger] waiting@[x])@.len() == pos@[x]@.len(),
                forall|x: int, k: int| 0 <= x < t && 0 <= k < pos@[x]@.len() ==> #[trigger] waiting@[x]@[k],
                forall|x: int| 0 <= x < t ==> #[trigger] statuses@[x] is Pending,
                forall|q: int| 0 <= q < ready@.len() ==> #[trigger] ready@[q] < t,
                forall|a: int, b: int| 0 <= a < b < ready@.len() ==> ready@[a] < ready@[b],
                forall|x: int| 0 <= x < t ==> (pos@[x]@.len() == 0 <==> #[trigger] ready@.contains(x as usize)),
                forall|q: int| 0 <= q < ready@.len() ==> pos@[#[trigger] ready@[q] as int]@.len() == 0,
            decreases n - t,
        {
            let mut row: Vec<bool> = Vec::new();
            let mut k: usize = 0;
            while k < pos[t].len()
                invariant
                    n == pos@.len(),
                    0 <= t < n,
                    0 <= k <= pos@[t as int]@.len(),
                    row@.len() == k,
                    forall|q: int| 0 <= q < k ==> #[trigger] row@[q],
                decreases pos@[t as int]@.len() - k,
            {
                row.push(true);
                k = k + 1;
            }
            waiting.push(row);
            statuses.push(TaskStatus::Pending);
            let ghost old_ready = ready@;
            if pos[t].len() == 0 {
                ready.push(t);
                proof {
                    assert(ready@[ready@.len() - 1] == t);
                }
            }
            proof {
                assert forall|q: int| 0 <= q < ready@.len() implies pos@[#[trigger] ready@[q] as int]@.len() == 0 by {
                    if q < old_ready.len() {
                        assert(ready@[q] == old_ready[q]);
                    }
                }
                assert forall|x: int| 0 <= x < t + 1 implies (pos@[x]@.len() == 0 <==> #[trigger] ready@.contains(x as usize)) by {
                    if ready@.contains(x as usize) {
                        let q = choose|q: int| 0 <= q < ready@.len() && ready@[q] == x as usize;
                        assert(pos@[ready@[q] as int]@.len() == 0);
                    }
                    if x < t && pos@[x]@.len() == 0 {
                        assert(old_ready.contains(x as usize));
                        let q = choose|q: int| 0 <= q < old_ready.len() && old_ready[q] == x as usize;
                        assert(ready@[q] == x as usize);
                    }
                    if x == t && pos@[x]@.len() == 0 {
                        assert(ready@[ready@.len() - 1] == t);
                    }
                }
            }
            t = t + 1;
        }
        let st = RunState {
            ids,
            deps: pos,
            dependents,
            waiting,
            statuses,
            ready,
            head: 0,
            completed: 0,
        };
        proof {
            assert(st.ready@.skip(0) == st.ready@);
            if no_repeats(st.deps@) {
                assert(st.orderly());
            }
            lemma_none_finished(st.statuses@);
            assert forall|t: int, k: int| 0 <= t < st.deps@.len() && 0 <= k < st.deps@[t]@.len() implies {
                &&& #[trigger] st.deps@[t]@[k] < names(st.ids@).len()
                &&& k < dep_names(deps@)[t].len()
                &&& names(st.ids@)[st.deps@[t]@[k] as int] == dep_names(deps@)[t][k]
            } by {
                assert(names(st.ids@)[st.deps@[t]@[k] as int] == st.ids@[st.deps@[t]@[k] as int]@);
                assert(dep_names(deps@)[t] == names(deps@[t]@));
                assert(dep_names(deps@)[t][k] == deps@[t]@[k]@);
            }
            lemma_ranked(names(st.ids@), dep_names(deps@), st.deps@);
            assert forall|x: int| 0 <= x < n && (#[trigger] st.statuses@[x]) is Pending && all_clear(st.waiting@[x]@)
                implies st.ready@.skip(st.head as int).contains(x as usize) by {
                if st.deps@[x]@.len() > 0 {
                    assert(st.waiting@[x]@[0]);
                }
            }
            assert(st.live());
        }
        Ok(st)
    }

    /// Takes up to `max` tasks from the front of the ready queue and marks
    /// them running.
    pub fn start_batch(&mut self, max: usize) -> (batch: Vec<usize>)
        requires
            old(self).wf(),
        ensures
            final(self).wf(),
            final(self).ids() == old(self).ids(),
            final(self).deps() == old(self).deps(),
            final(self).completed() == old(self).completed(),
            batch@.len() <= max,
            batch@.len() == max || batch@.len() == old(self).queued().len(),
            batch@ == old(self).queued().take(batch@.len() as int),
            final(self).queued() == old(self).queued().skip(batch@.len() as int),
            old(self).counted() && no_repeats(old(self).deps()) ==> final(self).counted(),
            old(self).live() ==> final(self).live(),
            final(self).statuses().len() == old(self).statuses().len(),
            forall|t: int| 0 <= t < old(self).statuses().len() ==> #[trigger] final(self).statuses()[t] == (if batch@.contains(
                t as usize,
            ) {
                TaskStatus::Running
            } else {
                old(self).statuses()[t]
            }),
            no_repeats(old(self).deps()) ==> forall|q: int| 0 <= q < batch@.len()
                ==> old(self).statuses()[#[trigger] batch@[q] as int] is Pending
                && forall|k: int| 0 <= k < old(self).deps()[batch@[q] as int]@.len()
                    ==> old(self).statuses()[old(self).deps()[batch@[q] as int]@[k] as int] is Succeeded,
    {
        let ghost s0 = self.statuses@;
        let ghost h0 = self.head as int;
        let mut batch: Vec<usize> = Vec::new();
        while self.head < self.ready.len() && batch.len() < max
            invariant
                self.wf(),
                self.ids == old(self).ids,
                self.deps == old(self).deps,
                self.dependents == old(self).dependents,
                self.waiting == old(self).waiting,
                self.ready == old(self).ready,
                self.completed == old(self).completed,
                h0 == old(self).head,
                s0 == old(self).statuses@,
                old(self).wf(),
                self.head == h0 + batch@.len(),
                batch@.len() <= max,
                batch@ == self.ready@.subrange(h0, self.head as int),
                self.statuses@.len() == s0.len(),
                forall|t: int| 0 <= t < s0.len() ==> #[trigger] self.statuses@[t] == (if batch@.contains(t as usize) {
                    TaskStatus::Running
                } else {
                    s0[t]
                }),
            decreases self.ready@.len() - self.head,
        {
            let t = self.ready[self.head];
            proof {
                if no_repeats(self.deps@) {
                    assert(self.statuses@[self.ready@[self.head as int] as int] is Pending);
                    assert(!batch@.contains(t)) by {
                        if batch@.contains(t) {
                            let m = choose|m: int| 0 <= m < batch@.len() && batch@[m] == t;
                            assert(self.ready@[h0 + m] == t);
                            assert(old(self).ready@[h0 + m] != old(self).ready@[self.head as int]);
                        }
                    }
                }
            }
            let ghost b0 = batch@;
            self.statuses.set(t, TaskStatus::Running);
            self.head = self.head + 1;
            batch.push(t);
            proof {
                assert(batch@ == self.ready@.subrange(h0, self.head as int));
                assert forall|x: int| 0 <= x < s0.len() implies #[trigger] self.statuses@[x] == (if batch@.contains(x as usize) {
                    TaskStatus::Running
                } else {
                    s0[x]
                }) by {
                    assert(self.statuses@.len() == self.statuses.len());
                    assert((x as usize) as int == x);
                    if x == t as int {
                        assert(batch@[batch@.len() - 1] == t);
                    } else {
                        if batch@.contains(x as usize) {
                            let m = choose|m: int| 0 <= m < batch@.len() && batch@[m] == x as usize;
                            assert(batch@[b0.len() as int] == t);
                            assert(m < b0.len());
                            assert(b0.contains(x as usize));
                        }
                        if b0.contains(x as usize) {
                            let m = choose|m: int| 0 <= m < b0.len() && b0[m] == x as usize;
                            assert(batch@[m] == x as usize);
                        }
                    }
                }
                if no_repeats(self.deps@) {
                    assert(self.orderly()) by {
                        assert forall|q: int| self.head <= q < self.ready@.len()
                            implies (#[trigger] self.statuses@[self.ready@[q] as int]) is Pending by {
                            assert(old(self).ready@[q] != old(self).ready@[self.head - 1]);
                            assert(self.statuses@[self.ready@[q] as int] == s0[self.ready@[q] as int] || batch@.contains(self.ready@[q]));
                            if batch@.contains(self.ready@[q]) {
                                let m = choose|m: int| 0 <= m < batch@.len() && batch@[m] == self.ready@[q];
                                assert(old(self).ready@[h0 + m] == old(self).ready@[q]);
                            }
                        }
                        assert forall|x: int, k: int| 0 <= x < self.ids@.len() && 0 <= k < self.deps@[x]@.len()
                            && !(#[trigger] self.waiting@[x]@[k]) implies self.statuses@[self.deps@[x]@[k] as int] is Succeeded by {
                            let d = self.deps@[x]@[k] as int;
                            assert(s0[d] is Succeeded);
                            if batch@.contains(d as usize) {
                                let m = choose|m: int| 0 <= m < batch@.len() && batch@[m] == d as usize;
                                assert(old(self).statuses@[old(self).ready@[h0 + m] as int] is Pending);
                            }
                        }
                        assert forall|x: int| 0 <= x < self.ids@.len() && (#[trigger] self.statuses@[x]) is Failed
                            implies (forall|k: int| 0 <= k < self.deps@[x]@.len() ==> !self.waiting@[x]@[k])
                                || (exists|k: int| 0 <= k < self.deps@[x]@.len() && self.statuses@[self.deps@[x]@[k] as int] is Failed) by {
                            assert(s0[x] is Failed);
                            if exists|k: int| 0 <= k < self.deps@[x]@.len() && s0[self.deps@[x]@[k] as int] is Failed {
                                let k = choose|k: int| 0 <= k < self.deps@[x]@.len() && s0[self.deps@[x]@[k] as int] is Failed;
                                let d = self.deps@[x]@[k] as int;
                                if batch@.contains(d as usize) {
                                    let m = choose|m: int| 0 <= m < batch@.len() && batch@[m] == d as usize;
                                    assert(old(self).statuses@[old(self).ready@[h0 + m] as int] is Pending);
                                }
                                assert(self.statuses@[d] is Failed);
                            }
                        }
                        assert forall|x: int, k: int| 0 <= x < self.ids@.len() && 0 <= k < self.deps@[x]@.len()
                            && (self.statuses@[x] is Running || self.statuses@[x] is Succeeded)
                            implies !(#[trigger] self.waiting@[x]@[k]) by {
                            assert(self.statuses@.len() == self.statuses.len());
                            assert((x as usize) as int == x);
                            if batch@.contains(x as usize) {
                                let m = choose|m: int| 0 <= m < batch@.len() && batch@[m] == x as usize;
                                assert(self.ready@.subrange(h0, self.head as int)[m] == self.ready@[h0 + m]);
                                assert(old(self).ready@[h0 + m] == x);
                            }
                        }
                    }
                }
            }
        }
        proof {
            assert(batch@ == old(self).queued().take(batch@.len() as int));
            assert(self.queued() == old(self).queued().skip(batch@.len() as int));
            if no_repeats(old(self).deps()) {
                assert forall|q: int| 0 <= q < batch@.len() implies old(self).statuses()[#[trigger] batch@[q] as int] is Pending
                    && forall|k: int| 0 <= k < old(self).deps()[batch@[q] as int]@.len()
                        ==> old(self).statuses()[old(self).deps()[batch@[q] as int]@[k] as int] is Succeeded by {
                    assert(batch@[q] == old(self).ready@[h0 + q]);
                    assert forall|k: int| 0 <= k < old(self).deps()[batch@[q] as int]@.len()
                        implies old(self).statuses()[old(self).deps()[batch@[q] as int]@[k] as int] is Succeeded by {
                        assert(!old(self).waiting@[old(self).ready@[h0 + q] as int]@[k]);
                    }
                }
            }
        }
        proof {
            if old(self).live() {
                self.lemma_live_after_start(old(self), batch@, h0);
            }
        }
        let n_st = self.statuses.len();
        proof {
            if old(self).counted() && no_repeats(old(self).deps@) {
                assert forall|t: int| 0 <= t < old(self).statuses@.len()
                    implies is_finished(#[trigger] old(self).statuses@[t]) == is_finished(self.statuses@[t]) by {
                    assert(self.statuses()[t] == (if batch@.contains(t as usize) { TaskStatus::Running } else { old(self).statuses()[t] }));
                    if batch@.contains(t as usize) {
                        let q = choose|q: int| 0 <= q < batch@.len() && batch@[q] == t as usize;
                        assert(old(self).statuses()[batch@[q] as int] is Pending);
                    }
                }
                lemma_finished_alike(old(self).statuses@, self.statuses@);
            }
        }
        batch
    }

    /// Clears `t`, which has just succeeded, from the waits of the tasks that
    /// depend on it, queueing each that has nothing left to wait for.
    fn release_dependents(&mut self, t: usize)
        requires
            old(self).wf(),
            t < old(self).statuses@.len(),
            old(self).statuses@[t as int] is Succeeded,
            no_repeats(old(self).deps@) ==> forall|x: int, k: int| 0 <= x < old(self).ids@.len() && 0 <= k < old(self).deps@[x]@.len()
                && #[trigger] old(self).deps@[x]@[k] == t ==> old(self).waiting@[x]@[k],
        ensures
            final(self).wf(),
            final(self).ids == old(self).ids,
            final(self).deps == old(self).deps,
            final(self).statuses == old(self).statuses,
            final(self).head == old(self).head,
            final(self).completed == old(self).completed,
            final(self).ready@.len() >= old(self).ready@.len(),
            final(self).ready@.take(old(self).ready@.len() as int) == old(self).ready@,
            forall|q: int| old(self).ready@.len() <= q < final(self).ready@.len()
                ==> old(self).deps@[#[trigger] final(self).ready@[q] as int]@.contains(t),
            forall|y: int| 0 <= y < old(self).ids@.len() ==> #[trigger] final(self).waiting@[y]@
                == (if old(self).dependents@[t as int]@.contains(y as usize) {
                    released(old(self).deps@[y]@, old(self).waiting@[y]@, t)
                } else {
                    old(self).waiting@[y]@
                }),
            final(self).ready@ == old(self).ready@ + newly_ready(old(self).deps@, old(self).waiting@, t,
                old(self).dependents@[t as int]@),
    {
        let n = self.ids.len();
        let mut m: usize = 0;
        while m < self.dependents[t].len()
            invariant
                n == self.ids@.len(),
                t < n,
                self.wf(),
                self.ids == old(self).ids,
                self.deps == old(self).deps,
                self.dependents == old(self).dependents,
                self.statuses == old(self).statuses,
                self.head == old(self).head,
                self.completed == old(self).completed,
                self.statuses@[t as int] is Succeeded,
                0 <= m <= self.dependents@[t as int]@.len(),
                self.ready@.len() >= old(self).ready@.len(),
                self.ready@.take(old(self).ready@.len() as int) == old(self).ready@,
                forall|q: int| old(self).ready@.len() <= q < self.ready@.len()
                    ==> self.deps@[#[trigger] self.ready@[q] as int]@.contains(t),
                forall|y: int| 0 <= y < n ==> #[trigger] self.waiting@[y]@
                    == (if self.dependents@[t as int]@.take(m as int).contains(y as usize) {
                        released(self.deps@[y]@, old(self).waiting@[y]@, t)
                    } else {
                        old(self).waiting@[y]@
                    }),
                self.ready@ == old(self).ready@ + newly_ready(self.deps@, old(self).waiting@, t,
                    self.dependents@[t as int]@.take(m as int)),
                no_repeats(self.deps@) ==> forall|mm: int, k: int| m <= mm < self.dependents@[t as int]@.len()
                    && 0 <= k < self.deps@[self.dependents@[t as int]@[mm] as int]@.len()
                    && #[trigger] self.deps@[self.dependents@[t as int]@[mm] as int]@[k] == t
                    ==> self.waiting@[self.dependents@[t as int]@[mm] as int]@[k],
            decreases self.dependents@[t as int]@.len() - m,
        {
            let x = self.dependents[t][m];
            let mut row: Vec<bool> = Vec::new();
            let mut clear = true;
            let mut k: usize = 0;
            while k < self.deps[x].len()
                invariant
                    n == self.ids@.len(),
                    self.wf(),
                    x < n,
                    0 <= k <= self.deps@[x as int]@.len(),
                    row@.len() == k,
                    forall|q: int| 0 <= q < k ==> #[trigger] row@[q] == (self.deps@[x as int]@[q] != t && self.waiting@[x as int]@[q]),
                    clear ==> forall|q: int| 0 <= q < k ==> !#[trigger] row@[q],
                    !clear ==> exists|q: int| 0 <= q < k && #[trigger] row@[q],
                decreases self.deps@[x as int]@.len() - k,
            {
                let w = self.deps[x][k] != t && self.waiting[x][k];
                let ghost row0 = row@;
                row.push(w);
                if w {
                    clear = false;
                }
                proof {
                    assert(row@[k as int] == w);
                    assert forall|q: int| 0 <= q < k implies #[trigger] row@[q] == row0[q] by {}
                    if !clear && !w {
                        let q = choose|q: int| 0 <= q < k && #[trigger] row0[q];
                        assert(row@[q]);
                    }
                }
                k = k + 1;
            }
            let ghost w0 = self.waiting@;
            let ghost r0 = self.ready@;
            proof {
                if no_repeats(self.deps@) {
                    assert(self.deps@[x as int]@.contains(t));
                    let kt = choose|kt: int| 0 <= kt < self.deps@[x as int]@.len() && self.deps@[x as int]@[kt] == t;
                    assert(self.waiting@[x as int]@[kt]);
                    // x is queued nowhere yet.
                    assert forall|q: int| self.head <= q < self.ready@.len() implies self.ready@[q] != x by {
                        if self.ready@[q] == x {
                            assert(!self.waiting@[self.ready@[q] as int]@[kt]);
                        }
                    }
                    if clear {
                        // x is pending.
                        assert(!(self.statuses@[x as int] is Running || self.statuses@[x as int] is Succeeded)) by {
                            if self.statuses@[x as int] is Running || self.statuses@[x as int] is Succeeded {
                                assert(!self.waiting@[x as int]@[kt]);
                            }
                        }
                        assert(!(self.statuses@[x as int] is Failed)) by {
                            if self.statuses@[x as int] is Failed {
                                if exists|k2: int| 0 <= k2 < self.deps@[x as int]@.len() && self.statuses@[self.deps@[x as int]@[k2] as int] is Failed {
                                    let k2 = choose|k2: int| 0 <= k2 < self.deps@[x as int]@.len() && self.statuses@[self.deps@[x as int]@[k2] as int] is Failed;
                                    assert(self.waiting@[x as int]@[k2]);
                                    assert(!row@[k2]);
                                } else {
                                    assert(!self.waiting@[x as int]@[kt]);
                                }
                            }
                        }
                    }
                }
            }
            let ghost ds = self.dependents@[t as int]@;
            proof {
                let cur = self.waiting@[x as int]@;
                let rel = released(self.deps@[x as int]@, old(self).waiting@[x as int]@, t);
                assert(row@ =~= rel) by {
                    assert forall|q: int| 0 <= q < row@.len() implies #[trigger] row@[q] == rel[q] by {
                        if ds.take(m as int).contains(x) {
                            assert(cur == rel);
                        }
                    }
                }
                assert(clear == all_clear(rel)) by {
                    if !clear {
                        let q = choose|q: int| 0 <= q < k && #[trigger] row@[q];
                        assert(rel[q]);
                    }
                }
                assert(ds.take(m + 1) =~= ds.take(m as int).push(x));
                assert(ds.take(m + 1).drop_last() =~= ds.take(m as int));
            }
            self.waiting.set(x, row);
            if clear {
                self.ready.push(x);
            }
            proof {
                assert(self.ready@ =~= old(self).ready@ + newly_ready(self.deps@, old(self).waiting@, t, ds.take(m + 1)));
                assert forall|y: int| 0 <= y < n implies #[trigger] self.waiting@[y]@
                    == (if ds.take(m + 1).contains(y as usize) {
                        released(self.deps@[y]@, old(self).waiting@[y]@, t)
                    } else {
                        old(self).waiting@[y]@
                    }) by {
                    if y != x {
                        assert(self.waiting@[y] == w0[y]);
                        assert(ds.take(m + 1).contains(y as usize) == ds.take(m as int).contains(y as usize)) by {
                            if ds.take(m + 1).contains(y as usize) {
                                let j = choose|j: int| 0 <= j < m + 1 && #[trigger] ds.take(m + 1)[j] == y as usize;
                                assert(ds.take(m as int)[j] == y as usize);
                            }
                            if ds.take(m as int).contains(y as usize) {
                                let j = choose|j: int| 0 <= j < m && #[trigger] ds.take(m as int)[j] == y as usize;
                                assert(ds.take(m + 1)[j] == y as usize);
                            }
                        }
                    } else {
                        assert(ds.take(m + 1)[m as int] == x);
                    }
                }
            }
            proof {
                assert(self.ready@.take(old(self).ready@.len() as int) == old(self).ready@) by {
                    assert(self.ready@.take(r0.len() as int) == r0);
                    assert(r0.take(old(self).ready@.len() as int) == old(self).ready@);
                }
                assert forall|q: int| old(self).ready@.len() <= q < self.ready@.len()
                    implies self.deps@[#[trigger] self.ready@[q] as int]@.contains(t) by {
                    if q < r0.len() {
                        assert(self.ready@[q] == r0[q]);
                    } else {
                        assert(self.ready@[q] == x);
                    }
                }
                assert forall|q: int| 0 <= q < self.ready@.len() implies #[trigger] self.ready@[q] < n by {
                    if q < r0.len() {
                        assert(self.ready@[q] == r0[q]);
                    }
                }
                assert forall|y: int| 0 <= y < n implies (#[trigger] self.waiting@[y])@.len() == self.deps@[y]@.len() by {
                    if y != x {
                        assert(self.waiting@[y] == w0[y]);
                    }
                }
                if no_repeats(self.deps@) {
                    assert forall|mm: int, k: int| m + 1 <= mm < self.dependents@[t as int]@.len()
                        && 0 <= k < self.deps@[self.dependents@[t as int]@[mm] as int]@.len()
                        && #[trigger] self.deps@[self.dependents@[t as int]@[mm] as int]@[k] == t
                        implies self.waiting@[self.dependents@[t as int]@[mm] as int]@[k] by {
                        assert(self.dependents@[t as int]@[mm] != self.dependents@[t as int]@[m as int]);
                        assert(self.waiting@[self.dependents@[t as int]@[mm] as int] == w0[self.dependents@[t as int]@[mm] as int]);
                    }
                    assert(self.orderly()) by {
                        assert forall|y: int, k: int| 0 <= y < n && 0 <= k < self.deps@[y]@.len() && !(#[trigger] self.waiting@[y]@[k])
                            implies self.statuses@[self.deps@[y]@[k] as int] is Succeeded by {
                            if y != x {
                                assert(self.waiting@[y] == w0[y]);
                            } else {
                                assert(!row@[k]);
                                if self.deps@[x as int]@[k] != t {
                                    assert(!w0[y]@[k]);
                                }
                            }
                        }
                        assert forall|q: int| self.head <= q < self.ready@.len()
                            implies (#[trigger] self.statuses@[self.ready@[q] as int]) is Pending by {
                            if q < r0.len() {
                                assert(self.ready@[q] == r0[q]);
                            }
                        }
                        assert forall|q: int, k: int| self.head <= q < self.ready@.len() && 0 <= k < self.deps@[self.ready@[q] as int]@.len()
                            implies !(#[trigger] self.waiting@[self.ready@[q] as int]@[k]) by {
                            if q < r0.len() {
                                assert(self.ready@[q] == r0[q]);
                                assert(r0[q] != x);
                                assert(self.waiting@[r0[q] as int] == w0[r0[q] as int]);
                            } else {
                                assert(self.ready@[q] == x);
                                assert(!row@[k]);
                            }
                        }
                        assert forall|a: int, b: int| self.head <= a < b < self.ready@.len() implies self.ready@[a] != self.ready@[b] by {
                            if b >= r0.len() {
                                assert(self.ready@[b] == x);
                                assert(self.ready@[a] == r0[a]);
                            } else {
                                assert(self.ready@[a] == r0[a]);
                                assert(self.ready@[b] == r0[b]);
                            }
                        }
                        assert forall|y: int, k: int| 0 <= y < n && 0 <= k < self.deps@[y]@.len()
                            && (self.statuses@[y] is Running || self.statuses@[y] is Succeeded) implies !(#[trigger] self.waiting@[y]@[k]) by {
                            if y != x {
                                assert(self.waiting@[y] == w0[y]);
                            } else {
                                assert(!w0[y]@[k]);
                                assert(!row@[k]);
                            }
                        }
                        assert forall|y: int| 0 <= y < n && (#[trigger] self.statuses@[y]) is Failed
                            implies (forall|k: int| 0 <= k < self.deps@[y]@.len() ==> !self.waiting@[y]@[k])
                                || (exists|k: int| 0 <= k < self.deps@[y]@.len() && self.statuses@[self.deps@[y]@[k] as int] is Failed) by {
                            if y != x {
                                assert(self.waiting@[y] == w0[y]);
                            } else {
                                if forall|k: int| 0 <= k < self.deps@[y]@.len() ==> !w0[y]@[k] {
                                    assert forall|k: int| 0 <= k < self.deps@[y]@.len() implies !self.waiting@[y]@[k] by {
                                        assert(!w0[y]@[k]);
                                        assert(!row@[k]);
                                    }
                                }
                            }
                        }
                    }
                }
            }
            m = m + 1;
        }
        proof {
            assert(self.dependents@[t as int]@.take(m as int) =~= self.dependents@[t as int]@);
        }
    }

    /// Fails, transitively, every pending task that depends on `t`, which has
    /// just failed; each such failure counts as a finished task.
    #[verifier::spinoff_prover]
    #[verifier::rlimit(40)]
    fn cascade_failure(&mut self, t: usize)
        requires
            old(self).wf(),
            t < old(self).statuses@.len(),
            old(self).statuses@[t as int] is Failed,
        ensures
            final(self).waiting == old(self).waiting,
            final(self).wf(),
            final(self).ids == old(self).ids,
            final(self).deps == old(self).deps,
            final(self).ready == old(self).ready,
            final(self).head == old(self).head,
            final(self).statuses@.len() == old(self).statuses@.len(),
            final(self).statuses@[t as int] == old(self).statuses@[t as int],
            forall|x: int| 0 <= x < old(self).statuses@.len() && x != t
                ==> #[trigger] final(self).statuses@[x] == old(self).statuses@[x]
                || (old(self).statuses@[x] is Pending && dependency_failed(final(self).statuses@[x], names(old(self).ids@)[t as int])),
            num_pending(final(self).statuses@) <= num_pending(old(self).statuses@),
            final(self).completed as int == raised(old(self).completed as int,
                num_pending(old(self).statuses@) - num_pending(final(self).statuses@)),
            forall|x: int, k: int| 0 <= x < old(self).statuses@.len() && 0 <= k < old(self).deps@[x]@.len()
                && final(self).statuses@[x] is Pending
                && (#[trigger] final(self).statuses@[old(self).deps@[x]@[k] as int]) is Failed
                ==> old(self).deps@[x]@[k] != t && old(self).statuses@[old(self).deps@[x]@[k] as int] is Failed,
    {
        let n = self.ids.len();
        let ghost s0 = self.statuses@;
        let ghost name = names(self.ids@)[t as int];
        let mut work: Vec<usize> = Vec::new();
        let mut m: usize = 0;
        while m < self.dependents[t].len()
            invariant
                n == self.ids@.len(),
                t < n,
                self.wf(),
                self.statuses@ == s0,
                0 <= m <= self.dependents@[t as int]@.len(),
                work@ == self.dependents@[t as int]@.take(m as int),
            decreases self.dependents@[t as int]@.len() - m,
        {
            work.push(self.dependents[t][m]);
            proof {
                assert(self.dependents@[t as int]@.take(m + 1) == self.dependents@[t as int]@.take(m as int).push(self.dependents@[t as int]@[m as int]));
            }
            m = m + 1;
        }
        proof {
            assert(work@ == self.dependents@[t as int]@.take(m as int));
            assert(self.dependents@[t as int]@.take(m as int) == self.dependents@[t as int]@);
        }
        let mut i: usize = 0;
        while i < work.len()
            invariant
                n == self.ids@.len(),
                t < n,
                self.wf(),
                self.ids == old(self).ids,
                self.deps == old(self).deps,
                self.dependents == old(self).dependents,
                self.waiting == old(self).waiting,
                self.ready == old(self).ready,
                self.head == old(self).head,
                s0 == old(self).statuses@,
                name == names(self.ids@)[t as int],
                self.statuses@.len() == n,
                self.statuses@[t as int] == s0[t as int],
                s0[t as int] is Failed,
                forall|x: int| 0 <= x < n && x != t ==> #[trigger] self.statuses@[x] == s0[x]
                    || (s0[x] is Pending && dependency_failed(self.statuses@[x], name)),
                0 <= i <= work@.len(),
                forall|p: int| 0 <= p < work@.len() ==> #[trigger] work@[p] < n,
                forall|p: int| #![trigger work@[p]] 0 <= p < work@.len() ==> exists|f: int| 0 <= f < n && (#[trigger] self.statuses@[f]) is Failed
                    && self.deps@[work@[p] as int]@.contains(f as usize),
                forall|f: int, mm: int| 0 <= f < n && (f == t || (s0[f] is Pending && self.statuses@[f] is Failed))
                    && 0 <= mm < self.dependents@[f]@.len() ==> work@.contains(#[trigger] self.dependents@[f]@[mm]),
                forall|p: int| 0 <= p < i ==> !(self.statuses@[#[trigger] work@[p] as int] is Pending),
                num_pending(self.statuses@) <= num_pending(s0),
                self.completed as int == raised(old(self).completed as int, num_pending(s0) - num_pending(self.statuses@)),
            decreases num_pending(self.statuses@), work@.len() - i,
        {
            let x = work[i];
            i = i + 1;
            let pending = match self.statuses[x] {
                TaskStatus::Pending => true,
                _ => false,
            };
            if pending {
                let ghost st0 = self.statuses@;
                let ghost wk0 = work@;
                let label = self.ids[t].clone();
                proof {
                    lemma_num_pending_drop(self.statuses@, x as int, TaskStatus::Failed(TaskError::DependencyFailed(label)));
                    if no_repeats(self.deps@) {
                        // x waits on a failed dependency, so it is not queued.
                        let f = choose|f: int| 0 <= f < n && (#[trigger] self.statuses@[f]) is Failed
                            && self.deps@[work@[i - 1] as int]@.contains(f as usize);
                        let kf = choose|kf: int| 0 <= kf < self.deps@[x as int]@.len() && self.deps@[x as int]@[kf] == f as usize;
                        assert(self.waiting@[x as int]@[kf]);
                        assert forall|q: int| self.head <= q < self.ready@.len() implies self.ready@[q] != x by {
                            if self.ready@[q] == x {
                                assert(!self.waiting@[self.ready@[q] as int]@[kf]);
                            }
                        }
                    }
                }
                self.statuses.set(x, TaskStatus::Failed(TaskError::DependencyFailed(label)));
                if self.completed < usize::MAX {
                    self.completed = self.completed + 1;
                }
                let mut mm: usize = 0;
                while mm < self.dependents[x].len()
                    invariant
                        n == self.ids@.len(),
                        x < n,
                        self.wf(),
                        self.statuses@[x as int] is Failed,
                        0 <= mm <= self.dependents@[x as int]@.len(),
                        work@.len() == wk0.len() + mm,
                        work@.take(wk0.len() as int) == wk0,
                        forall|q: int| 0 <= q < mm ==> work@[wk0.len() + q] == #[trigger] self.dependents@[x as int]@[q],
                    decreases self.dependents@[x as int]@.len() - mm,
                {
                    work.push(self.dependents[x][mm]);
                    proof {
                        assert(work@[wk0.len() + mm] == self.dependents@[x as int]@[mm as int]);
                    }
                    mm = mm + 1;
                }
                proof {
                    assert forall|p: int| 0 <= p < work@.len() implies #[trigger] work@[p] < n by {
                        if p < wk0.len() {
                            assert(work@[p] == wk0[p]);
                        } else {
                            assert(work@[p] == self.dependents@[x as int]@[p - wk0.len()]);
                        }
                    }
                    assert forall|p: int| #![trigger work@[p]] 0 <= p < work@.len() implies exists|f: int| 0 <= f < n && (#[trigger] self.statuses@[f]) is Failed
                        && self.deps@[work@[p] as int]@.contains(f as usize) by {
                        if p < wk0.len() {
                            assert(work@[p] == wk0[p]);
                            let f = choose|f: int| 0 <= f < n && (#[trigger] st0[f]) is Failed
                                && self.deps@[wk0[p] as int]@.contains(f as usize);
                            assert(self.statuses@[f] is Failed);
                        } else {
                            assert(work@[p] == self.dependents@[x as int]@[p - wk0.len()]);
                            assert(self.statuses@[x as int] is Failed);
                        }
                    }
                    assert forall|f: int, q: int| 0 <= f < n && (f == t || (s0[f] is Pending && self.statuses@[f] is Failed))
                        && 0 <= q < self.dependents@[f]@.len() implies work@.contains(#[trigger] self.dependents@[f]@[q]) by {
                        if f == x {
                            assert(work@[wk0.len() + q] == self.dependents@[x as int]@[q]);
                        } else {
                            assert(st0[f] == self.statuses@[f]);
                            assert(wk0.contains(self.dependents@[f]@[q]));
                            let w = choose|w: int| 0 <= w < wk0.len() && wk0[w] == self.dependents@[f]@[q];
                            assert(work@[w] == wk0[w]);
                        }
                    }
                    assert forall|p: int| 0 <= p < i implies !(self.statuses@[#[trigger] work@[p] as int] is Pending) by {
                        assert(work@[p] == wk0[p]);
                    }
                    assert forall|y: int| 0 <= y < n && y != t implies #[trigger] self.statuses@[y] == s0[y]
                        || (s0[y] is Pending && dependency_failed(self.statuses@[y], name)) by {
                        if y == x {
                            assert(st0[y] is Pending);
                            assert(st0[y] == s0[y]);
                        }
                    }
                }
            }
        }
        proof {
            assert forall|x: int, k: int| 0 <= x < n && 0 <= k < self.deps@[x]@.len()
                && self.statuses@[x] is Pending
                && (#[trigger] self.statuses@[self.deps@[x]@[k] as int]) is Failed
                implies self.deps@[x]@[k] != t && s0[self.deps@[x]@[k] as int] is Failed by {
                let f = self.deps@[x]@[k] as int;
                if !(s0[f] is Failed) || f == t {
                    assert(f == t || s0[f] is Pending);
                    assert(self.dependents@[f]@.contains(x as usize));
                    let q = choose|q: int| 0 <= q < self.dependents@[f]@.len() && self.dependents@[f]@[q] == x as usize;
                    assert(work@.contains(self.dependents@[f]@[q]));
                    let p = choose|p: int| 0 <= p < work@.len() && work@[p] == x as usize;
                    assert(!(self.statuses@[work@[p] as int] is Pending));
                }
            }
        }
    }

    /// Records that running task `t` succeeded.
    fn mark_succeeded(&mut self, t: usize, out: ExecutionOutput)
        requires
            old(self).wf(),
            t < old(self).statuses@.len(),
            old(self).statuses@[t as int] is Running,
        ensures
            final(self).waiting == old(self).waiting,
            final(self).wf(),
            final(self).ids == old(self).ids,
            final(self).deps == old(self).deps,
            final(self).ready == old(self).ready,
            final(self).head == old(self).head,
            final(self).completed == old(self).completed,
            final(self).statuses@ == old(self).statuses@.update(t as int, TaskStatus::Succeeded(out)),
            no_repeats(old(self).deps@) ==> forall|x: int, k: int| 0 <= x < old(self).ids@.len() && 0 <= k < old(self).deps@[x]@.len()
                && #[trigger] old(self).deps@[x]@[k] == t ==> final(self).waiting@[x]@[k],
    {
        proof {
            if no_repeats(self.deps@) {
                assert forall|x: int, k: int| 0 <= x < self.ids@.len() && 0 <= k < self.deps@[x]@.len()
                    && #[trigger] self.deps@[x]@[k] == t implies self.waiting@[x]@[k] by {
                    if !self.waiting@[x]@[k] {
                        assert(self.statuses@[self.deps@[x]@[k] as int] is Succeeded);
                    }
                }
            }
        }
        self.statuses.set(t, TaskStatus::Succeeded(out));
        proof {
            assert(self.statuses@[t as int] is Succeeded);
            if no_repeats(self.deps@) {
                assert(self.orderly()) by {
                    assert forall|x: int| self.head <= x < self.ready@.len()
                        implies (#[trigger] self.statuses@[self.ready@[x] as int]) is Pending by {
                        assert(old(self).statuses@[old(self).ready@[x] as int] is Pending);
                    }
                    assert forall|x: int| 0 <= x < self.ids@.len() && (#[trigger] self.statuses@[x]) is Failed
                        implies (forall|k: int| 0 <= k < self.deps@[x]@.len() ==> !self.waiting@[x]@[k])
                            || (exists|k: int| 0 <= k < self.deps@[x]@.len() && self.statuses@[self.deps@[x]@[k] as int] is Failed) by {
                        assert(old(self).statuses@[x] is Failed);
                        if exists|k: int| 0 <= k < self.deps@[x]@.len() && old(self).statuses@[self.deps@[x]@[k] as int] is Failed {
                            let k = choose|k: int| 0 <= k < self.deps@[x]@.len() && old(self).statuses@[self.deps@[x]@[k] as int] is Failed;
                            assert(self.statuses@[self.deps@[x]@[k] as int] is Failed);
                        }
                    }
                }
            }
        }
    }

    /// Records that running task `t` failed with `e`.
    fn mark_failed(&mut self, t: usize, e: TaskError)
        requires
            old(self).wf(),
            t < old(self).statuses@.len(),
            old(self).statuses@[t as int] is Running,
        ensures
            final(self).waiting == old(self).waiting,
            final(self).wf(),
            final(self).ids == old(self).ids,
            final(self).deps == old(self).deps,
            final(self).ready == old(self).ready,
            final(self).head == old(self).head,
            final(self).completed == old(self).completed,
            final(self).statuses@ == old(self).statuses@.update(t as int, TaskStatus::Failed(e)),
    {
        let ghost e0 = e;
        self.statuses.set(t, TaskStatus::Failed(e));
        proof {
            if no_repeats(self.deps@) {
                assert(self.orderly()) by {
                    assert forall|x: int| self.head <= x < self.ready@.len()
                        implies (#[trigger] self.statuses@[self.ready@[x] as int]) is Pending by {
                        assert(old(self).statuses@[old(self).ready@[x] as int] is Pending);
                    }
                    assert forall|x: int, k: int| 0 <= x < self.ids@.len() && 0 <= k < self.deps@[x]@.len()
                        && !(#[trigger] self.waiting@[x]@[k]) implies self.statuses@[self.deps@[x]@[k] as int] is Succeeded by {
                        assert(old(self).statuses@[self.deps@[x]@[k] as int] is Succeeded);
                    }
                    assert forall|x: int| 0 <= x < self.ids@.len() && (#[trigger] self.statuses@[x]) is Failed
                        implies (forall|k: int| 0 <= k < self.deps@[x]@.len() ==> !self.waiting@[x]@[k])
                            || (exists|k: int| 0 <= k < self.deps@[x]@.len() && self.statuses@[self.deps@[x]@[k] as int] is Failed) by {
                        if x != t {
                            assert(old(self).statuses@[x] is Failed);
                            if exists|k: int| 0 <= k < self.deps@[x]@.len() && old(self).statuses@[self.deps@[x]@[k] as int] is Failed {
                                let k = choose|k: int| 0 <= k < self.deps@[x]@.len() && old(self).statuses@[self.deps@[x]@[k] as int] is Failed;
                                assert(self.statuses@[self.deps@[x]@[k] as int] is Failed);
                            }
                        }
                    }
                }
            }
        }
    }

    /// The final status of every task, paired with its name, in the order the
    /// tasks were given.
    pub fn into_results(self) -> (r: Vec<(String, TaskStatus)>)
        requires
            self.wf(),
        ensures
            r@.len() == self.ids().len(),
            forall|t: int| 0 <= t < r@.len() ==> (#[trigger] r@[t]).0@ == self.ids()[t] && r@[t].1 == self.statuses()[t],
    {
        let mut r: Vec<(String, TaskStatus)> = Vec::new();
        let mut ids = self.ids;
        let mut statuses = self.statuses;
        let ghost ids0 = ids@;
        let ghost st0 = statuses@;
        while ids.len() > 0
            invariant
                ids@.len() == statuses@.len(),
                ids@.len() + r@.len() == ids0.len(),
                ids0.len() == st0.len(),
                ids@ == ids0.take(ids@.len() as int),
                statuses@ == st0.take(statuses@.len() as int),
                forall|q: int| 0 <= q < r@.len() ==> (#[trigger] r@[q]).0@ == ids0[ids0.len() - 1 - q]@
                    && r@[q].1 == st0[st0.len() - 1 - q],
            decreases ids@.len(),
        {
            let ghost k = ids@.len() - 1;
            let id = ids.pop().unwrap();
            let st = statuses.pop().unwrap();
            proof {
                assert(id == ids0[k]);
                assert(st == st0[k]);
            }
            r.push((id, st));
        }
        let mut out: Vec<(String, TaskStatus)> = Vec::new();
        let ghost rr = r@;
        while r.len() > 0
            invariant
                r@ == rr.take(r@.len() as int),
                rr.len() == ids0.len(),
                out@.len() + r@.len() == rr.len(),
                forall|q: int| 0 <= q < rr.len() ==> (#[trigger] rr[q]).0@ == ids0[ids0.len() - 1 - q]@
                    && rr[q].1 == st0[st0.len() - 1 - q],
                ids0.len() == st0.len(),
                forall|q: int| 0 <= q < out@.len() ==> (#[trigger] out@[q]).0@ == ids0[q]@ && out@[q].1 == st0[q],
            decreases r@.len(),
        {
            let ghost k = r@.len() - 1;
            let e = r.pop().unwrap();
            proof {
                assert(e == rr[k]);
            }
            out.push(e);
        }
        proof {
            assert forall|t: int| 0 <= t < out@.len() implies (#[trigger] out@[t]).0@ == names(ids0)[t] by {}
        }
        out
    }

    /// Whether task `t` is running.
    pub fn is_running(&self, t: usize) -> (r: bool)
        requires
            self.wf(),
            t < self.statuses().len(),
        ensures
            r == (self.statuses()[t as int] is Running),
    {
        match self.statuses[t] {
            TaskStatus::Running => true,
            _ => false,
        }
    }

    /// Whether every task has finished, by running or through a failed
    /// dependency.
    pub fn is_done(&self) -> (r: bool)
        ensures
            r == (self.completed() >= self.ids().len()),
    {
        self.completed >= self.ids.len()
    }

    /// Records the outcome of running task `t`. A success clears `t` from the
    /// waits of the tasks that depend on it, and queues those with nothing
    /// left to wait for; a failure fails, transitively, every pending task
    /// that depends on `t`.
    pub fn finish(&mut self, t: usize, result: TaskResult)
        requires
            old(self).wf(),
            t < old(self).statuses().len(),
            old(self).statuses()[t as int] is Running,
        ensures
            final(self).wf(),
            final(self).ids() == old(self).ids(),
            final(self).deps() == old(self).deps(),
            final(self).statuses().len() == old(self).statuses().len(),
            num_pending(final(self).statuses()) <= num_pending(old(self).statuses()),
            final(self).completed() as int == raised(old(self).completed() as int,
                1 + num_pending(old(self).statuses()) - num_pending(final(self).statuses())),
            old(self).counted() ==> final(self).counted(),
            old(self).live() ==> final(self).live(),
            result matches Ok(out) ==> {
                &&& final(self).statuses()[t as int] == TaskStatus::Succeeded(out)
                &&& forall|x: int| 0 <= x < old(self).statuses().len() && x != t
                    ==> #[trigger] final(self).statuses()[x] == old(self).statuses()[x]
                &&& final(self).queued().take(old(self).queued().len() as int) == old(self).queued()
                &&& forall|q: int| old(self).queued().len() <= q < final(self).queued().len()
                    ==> old(self).deps()[#[trigger] final(self).queued()[q] as int]@.contains(t)
            },
            result matches Err(e) ==> {
                &&& final(self).statuses()[t as int] == TaskStatus::Failed(e)
                &&& final(self).queued() == old(self).queued()
                &&& forall|x: int| 0 <= x < old(self).statuses().len() && x != t
                    ==> #[trigger] final(self).statuses()[x] == old(self).statuses()[x]
                    || (old(self).statuses()[x] is Pending && dependency_failed(final(self).statuses()[x], old(self).ids()[t as int]))
                &&& forall|x: int, k: int| 0 <= x < old(self).statuses().len() && 0 <= k < old(self).deps()[x]@.len()
                    && final(self).statuses()[x] is Pending
                    && (#[trigger] final(self).statuses()[old(self).deps()[x]@[k] as int]) is Failed
                    ==> old(self).statuses()[old(self).deps()[x]@[k] as int] is Failed
            },
    {
        match result {
            Ok(out) => {
                proof {
                    lemma_num_pending_same(self.statuses@, t as int, TaskStatus::Succeeded(out));
                }
                self.mark_succeeded(t, out);
                let ghost mid = *self;
                let n_ids = self.ids.len();
                self.release_dependents(t);
                proof {
                    if old(self).live() {
                        assert(mid.ids@.len() == n_ids);
                        self.lemma_live_after_success(old(self), &mid, t);
                    }
                    let r0 = old(self).ready@;
                    let h = self.head as int;
                    assert(h == old(self).head);
                    assert(h <= r0.len());
                    assert(self.ready@.take(r0.len() as int) == r0);
                    assert(self.ready@.len() >= r0.len());
                    assert(self.queued().take(old(self).queued().len() as int) == old(self).queued()) by {
                        assert forall|q: int| 0 <= q < old(self).queued().len()
                            implies self.queued().take(old(self).queued().len() as int)[q] == old(self).queued()[q] by {
                            assert(h + q < r0.len());
                            assert(self.ready@.take(r0.len() as int)[h + q] == r0[h + q]);
                            assert(self.ready@[h + q] == self.ready@.take(r0.len() as int)[h + q]);
                        }
                    }
                    assert forall|q: int| old(self).queued().len() <= q < self.queued().len()
                        implies old(self).deps()[#[trigger] self.queued()[q] as int]@.contains(t) by {
                        assert(self.queued()[q] == self.ready@[h + q]);
                    }
                }
            },
            Err(e) => {
                proof {
                    lemma_num_pending_same(self.statuses@, t as int, TaskStatus::Failed(e));
                }
                self.mark_failed(t, e);
                self.cascade_failure(t);
                proof {
                    if old(self).live() {
                        self.lemma_live_after_failure(old(self), t);
                    }
                }
            },
        }
        let n_st = self.statuses.len();
        proof {
            if old(self).counted() {
                let s1 = old(self).statuses@;
                let s2 = self.statuses@;
                assert forall|i: int| 0 <= i < s1.len() implies #[trigger] settled_weight(s2[i]) == settled_weight(s1[i]) + (if i == t { 1nat } else { 0nat }) by {
                    if i != t {
                        if s2[i] != s1[i] {
                            assert(s1[i] is Pending && s2[i] is Failed);
                        }
                    }
                }
                lemma_settled_gain(s1, s2, t as int);
                lemma_num_finished_le(s2);
            }
        }
        if self.completed < usize::MAX {
            self.completed = self.completed + 1;
        }
    }
}

} // verus!
