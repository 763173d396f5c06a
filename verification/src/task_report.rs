//! Task outcomes and reports for a scheduler whose tasks run concurrently:
//! each task waits for its dependencies to finish, and is cancelled when one
//! of them did not succeed.
use vstd::prelude::*;
use crate::text::{owned, push_str};
use crate::taskgraph::{check_graph, names, dep_names, graph_verdict, names_task, before, GraphError};

verus! {

/// Why a task failed, and whether trying again may help.
#[derive(Debug, Clone)]
pub struct TaskError {
    pub message: String,
    pub retryable: bool,
}

impl TaskError {
    /// The message shown for the error.
    pub fn to_string(&self) -> (r: String)
        ensures
            r@ == self.message@,
    {
        self.message.clone()
    }
}

/// What a successful task produced.
#[derive(Debug, Clone)]
pub struct TaskOutput {
    pub stdout: String,
    pub exit_code: i32,
}

/// Where a task stands.
#[derive(Debug, Clone)]
pub enum TaskStatus {
    Pending,
    /// Blocked on dependencies.
    Waiting,
    Running,
    Succeeded(TaskOutput),
    Failed(TaskError),
    TimedOut,
    Cancelled,
}

impl TaskStatus {
    /// The status is final.
    pub open spec fn spec_is_terminal(&self) -> bool {
        ||| self is Succeeded
        ||| self is Failed
        ||| self is TimedOut
        ||| self is Cancelled
    }

    pub fn is_terminal(&self) -> (r: bool)
        ensures
            r == self.spec_is_terminal(),
    {
        match self {
            TaskStatus::Succeeded(_) | TaskStatus::Failed(_) | TaskStatus::TimedOut | TaskStatus::Cancelled => true,
            _ => false,
        }
    }

    pub fn is_success(&self) -> (r: bool)
        ensures
            r == (self is Succeeded),
    {
        match self {
            TaskStatus::Succeeded(_) => true,
            _ => false,
        }
    }
}

/// The HTTP methods a task can use.
#[derive(Debug, Clone, Copy, PartialEq, Eq, Structural)]
pub enum HttpMethod {
    Get,
    Post,
    Put,
    Delete,
}

impl HttpMethod {
    /// The name `{:?}` prints for the method.
    pub open spec fn spec_name(self) -> Seq<char> {
        match self {
            HttpMethod::Get => "Get"@,
            HttpMethod::Post => "Post"@,
            HttpMethod::Put => "Put"@,
            HttpMethod::Delete => "Delete"@,
        }
    }

    pub fn name(&self) -> (r: &'static str)
        ensures
            r@ == self.spec_name(),
    {
        match self {
            HttpMethod::Get => "Get",
            HttpMethod::Post => "Post",
            HttpMethod::Put => "Put",
            HttpMethod::Delete => "Delete",
        }
    }
}

/// The output line of a (simulated) HTTP task: `HTTP <method> <url> -> <status>`.
pub fn http_summary(method: HttpMethod, url: &str, expected_status: u16) -> (r: String)
    ensures
        r@ == "HTTP "@ + method.spec_name() + " "@ + url@ + " -> "@ + crate::text::decimal(expected_status as nat),
{
    let mut s = String::new();
    push_str(&mut s, "HTTP ");
    push_str(&mut s, method.name());
    push_str(&mut s, " ");
    push_str(&mut s, url);
    push_str(&mut s, " -> ");
    crate::text::push_decimal(&mut s, expected_status as u64);
    s
}

/// No name occurs twice among the entries.
pub open spec fn distinct_names(s: Seq<(String, TaskStatus)>) -> bool {
    forall|i: int, j: int| 0 <= i < s.len() && 0 <= j < s.len() && i != j ==> #[trigger] s[i].0@ != #[trigger] s[j].0@
}

/// The final status of every task, by name; each name has one entry.
#[derive(Debug)]
pub struct SchedulerReport {
    statuses: Vec<(String, TaskStatus)>,
}

impl SchedulerReport {
    #[verifier::type_invariant]
    spec fn one_entry_per_name(&self) -> bool {
        distinct_names(self.statuses@)
    }

    /// The entries, in the order their names were first recorded.
    pub closed spec fn entries(&self) -> Seq<(String, TaskStatus)> {
        self.statuses@
    }

    /// A report with no entry.
    pub fn new() -> (r: Self)
        ensures
            r.entries().len() == 0,
    {
        SchedulerReport { statuses: Vec::new() }
    }

    /// Records `status` for `name`: it replaces the status of an entry of that
    /// name, else a new entry is added at the end.
    pub fn record(&mut self, name: String, status: TaskStatus)
        ensures
            match position_of_name(old(self).entries(), name@) {
                Some(i) => final(self).entries() == old(self).entries().update(i, (name, status)),
                None => final(self).entries() == old(self).entries().push((name, status)),
            },
    {
        proof { use_type_invariant(&*self); }
        let mut es: Vec<(String, TaskStatus)> = Vec::new();
        std::mem::swap(&mut es, &mut self.statuses);
        let ghost e0 = es@;
        assert(e0 == old(self).statuses@);
        assert(distinct_names(e0));
        let mut i: usize = 0;
        while i < es.len()
            invariant
                0 <= i <= es@.len(),
                es@ == e0,
                e0 == old(self).statuses@,
                distinct_names(e0),
                forall|j: int| 0 <= j < i ==> (#[trigger] e0[j]).0@ != name@,
            decreases es@.len() - i,
        {
            if crate::text::str_eq(es[i].0.as_str(), name.as_str()) {
                proof { lemma_position_of_name(e0, name@, i as int); }
                let ghost nm = name@;
                let ghost pair = (name, status);
                es.set(i, (name, status));
                assert(es@ == e0.update(i as int, pair));
                proof {
                    assert forall|a: int, b: int| 0 <= a < es@.len() && 0 <= b < es@.len() && a != b
                        implies #[trigger] es@[a].0@ != #[trigger] es@[b].0@ by {
                        if a == i {
                            assert(es@[b] == e0[b]);
                            assert(e0[i as int].0@ == nm);
                        } else if b == i {
                            assert(es@[a] == e0[a]);
                            assert(e0[i as int].0@ == nm);
                        } else {
                            assert(es@[a] == e0[a] && es@[b] == e0[b]);
                        }
                    }
                }
                self.statuses = es;
                return;
            }
            i = i + 1;
        }
        proof { lemma_position_of_name_none(e0, name@); }
        let ghost nm = name@;
        es.push((name, status));
        proof {
            assert forall|a: int, b: int| 0 <= a < es@.len() && 0 <= b < es@.len() && a != b
                implies #[trigger] es@[a].0@ != #[trigger] es@[b].0@ by {
                if a == e0.len() {
                    assert(es@[b] == e0[b]);
                } else if b == e0.len() {
                    assert(es@[a] == e0[a]);
                } else {
                    assert(es@[a] == e0[a] && es@[b] == e0[b]);
                }
            }
        }
        self.statuses = es;
    }

    /// The entries, in the order their names were first recorded.
    pub fn statuses(&self) -> (r: &[(String, TaskStatus)])
        ensures
            r@ == self.entries(),
    {
        self.statuses.as_slice()
    }

    /// Every task succeeded.
    pub fn all_succeeded(&self) -> (r: bool)
        ensures
            r == forall|i: int| 0 <= i < self.entries().len() ==> (#[trigger] self.entries()[i]).1 is Succeeded,
    {
        let mut i: usize = 0;
        while i < self.statuses.len()
            invariant
                0 <= i <= self.statuses@.len(),
                forall|q: int| 0 <= q < i ==> (#[trigger] self.statuses@[q]).1 is Succeeded,
            decreases self.statuses@.len() - i,
        {
            if !self.statuses[i].1.is_success() {
                return false;
            }
            i = i + 1;
        }
        true
    }

    /// The names of the tasks that failed or timed out, in report order;
    /// no name twice.
    pub fn failed_tasks(&self) -> (r: Vec<&String>)
        ensures
            r@.len() <= self.entries().len(),
            r@.map_values(|s: &String| s@) == failed_names(self.entries()),
            forall|i: int, j: int| 0 <= i < j < r@.len() ==> r@[i]@ != r@[j]@,
    {
        proof {
            use_type_invariant(self);
            lemma_failed_names_distinct(self.statuses@);
        }
        let mut r: Vec<&String> = Vec::new();
        let mut i: usize = 0;
        while i < self.statuses.len()
            invariant
                0 <= i <= self.statuses@.len(),
                r@.len() <= i,
                r@.map_values(|s: &String| s@) == failed_names(self.statuses@.take(i as int)),
            decreases self.statuses@.len() - i,
        {
            let failed = match self.statuses[i].1 {
                TaskStatus::Failed(_) | TaskStatus::TimedOut => true,
                _ => false,
            };
            proof {
                assert(self.statuses@.take(i + 1).drop_last() == self.statuses@.take(i as int));
            }
            if failed {
                let ghost r0 = r@;
                r.push(&self.statuses[i].0);
                proof {
                    assert(r@.map_values(|s: &String| s@) == r0.map_values(|s: &String| s@).push(self.statuses@[i as int].0@));
                }
            }
            i = i + 1;
        }
        proof {
            assert(self.statuses@.take(i as int) == self.statuses@);
            assert forall|a: int, b: int| 0 <= a < b < r@.len() implies r@[a]@ != r@[b]@ by {
                assert(r@.map_values(|s: &String| s@)[a] == r@[a]@);
                assert(r@.map_values(|s: &String| s@)[b] == r@[b]@);
            }
        }
        r
    }
}

/// The position of the entry named `name`, if any.
pub open spec fn position_of_name(s: Seq<(String, TaskStatus)>, name: Seq<char>) -> Option<int> {
    if exists|i: int| 0 <= i < s.len() && (#[trigger] s[i]).0@ == name {
        Some(choose|i: int| 0 <= i < s.len() && (#[trigger] s[i]).0@ == name)
    } else {
        None
    }
}

proof fn lemma_position_of_name(s: Seq<(String, TaskStatus)>, name: Seq<char>, i: int)
    requires
        distinct_names(s),
        0 <= i < s.len(),
        s[i].0@ == name,
    ensures
        position_of_name(s, name) == Some(i),
{
    let k = choose|k: int| 0 <= k < s.len() && (#[trigger] s[k]).0@ == name;
    if k != i {
        assert(s[k].0@ != s[i].0@);
    }
}

proof fn lemma_position_of_name_none(s: Seq<(String, TaskStatus)>, name: Seq<char>)
    requires
        forall|j: int| 0 <= j < s.len() ==> (#[trigger] s[j]).0@ != name,
    ensures
        position_of_name(s, name) is None,
{
}

/// Every failed name is the name of an entry.
proof fn lemma_failed_names_from(s: Seq<(String, TaskStatus)>, k: int)
    requires
        0 <= k < failed_names(s).len(),
    ensures
        exists|i: int| 0 <= i < s.len() && (#[trigger] s[i]).0@ == failed_names(s)[k],
    decreases s.len(),
{
    let rest = failed_names(s.drop_last());
    if k < rest.len() {
        lemma_failed_names_from(s.drop_last(), k);
        let i = choose|i: int| 0 <= i < s.drop_last().len() && (#[trigger] s.drop_last()[i]).0@ == rest[k];
        assert(s[i] == s.drop_last()[i]);
    } else {
        assert(s[s.len() - 1].0@ == failed_names(s)[k]);
    }
}

/// With distinct names, the failed names are distinct too.
proof fn lemma_failed_names_distinct(s: Seq<(String, TaskStatus)>)
    requires
        distinct_names(s),
    ensures
        forall|a: int, b: int| 0 <= a < b < failed_names(s).len() ==> failed_names(s)[a] != failed_names(s)[b],
    decreases s.len(),
{
    if s.len() > 0 {
        let t = s.drop_last();
        assert(distinct_names(t)) by {
            assert forall|i: int, j: int| 0 <= i < t.len() && 0 <= j < t.len() && i != j implies #[trigger] t[i].0@ != #[trigger] t[j].0@ by {
                assert(t[i] == s[i] && t[j] == s[j]);
            }
        }
        lemma_failed_names_distinct(t);
        let rest = failed_names(t);
        assert forall|a: int, b: int| 0 <= a < b < failed_names(s).len() implies failed_names(s)[a] != failed_names(s)[b] by {
            if b >= rest.len() {
                lemma_failed_names_from(t, a);
                let i = choose|i: int| 0 <= i < t.len() && (#[trigger] t[i]).0@ == rest[a];
                assert(t[i] == s[i]);
                assert(s[i].0@ != s[s.len() - 1].0@);
            }
        }
    }
}

/// The names of the entries that failed or timed out, in order.
pub open spec fn failed_names(s: Seq<(String, TaskStatus)>) -> Seq<Seq<char>>
    decreases s.len(),
{
    if s.len() == 0 {
        Seq::empty()
    } else {
        let rest = failed_names(s.drop_last());
        if s.last().1 is Failed || s.last().1 is TimedOut {
            rest.push(s.last().0@)
        } else {
            rest
        }
    }
}

/// What a waiting task does next, given the statuses of its dependencies in
/// the order it lists them.
#[derive(Debug, Clone, Copy, PartialEq, Eq, Structural)]
pub enum Gate {
    /// Dependency `usize` has not finished yet.
    Wait(usize),
    /// A dependency finished without succeeding: the task is cancelled.
    Cancel,
    /// Every dependency succeeded: the task may run.
    Go,
}

/// The decision for dependencies with the given statuses: dependencies are
/// awaited in order, and the first that finished without success cancels.
pub open spec fn gate_of(deps: Seq<TaskStatus>) -> Gate
    decreases deps.len(),
{
    if deps.len() == 0 {
        Gate::Go
    } else if !deps[0].spec_is_terminal() {
        Gate::Wait(0)
    } else if !(deps[0] is Succeeded) {
        Gate::Cancel
    } else {
        match gate_of(deps.drop_first()) {
            Gate::Wait(k) => Gate::Wait((k + 1) as usize),
            g => g,
        }
    }
}

proof fn lemma_gate_bound(deps: Seq<TaskStatus>)
    ensures
        gate_of(deps) is Wait ==> gate_of(deps)->0 < deps.len(),
    decreases deps.len(),
{
    if deps.len() > 0 {
        lemma_gate_bound(deps.drop_first());
    }
}

/// Decides what a waiting task does next.
pub fn dependency_gate(deps: &[TaskStatus]) -> (g: Gate)
    ensures
        g == gate_of(deps@),
        g == Gate::Go <==> forall|k: int| 0 <= k < deps@.len() ==> #[trigger] deps@[k] is Succeeded,
{
    let mut k: usize = 0;
    proof {
        assert(deps@.skip(0) == deps@);
        lemma_gate_bound(deps@);
    }
    while k < deps.len()
        invariant
            0 <= k <= deps@.len(),
            forall|q: int| 0 <= q < k ==> #[trigger] deps@[q] is Succeeded,
            gate_of(deps@) == shifted(gate_of(deps@.skip(k as int)), k as int),
        decreases deps@.len() - k,
    {
        proof {
            assert(deps@.skip(k as int).drop_first() == deps@.skip(k + 1));
        }
        if !deps[k].is_terminal() {
            return Gate::Wait(k);
        }
        if !deps[k].is_success() {
            return Gate::Cancel;
        }
        proof {
            assert(deps@.skip(k as int)[0] == deps@[k as int]);
            lemma_gate_bound(deps@.skip(k + 1));
            let g = gate_of(deps@.skip(k + 1));
            assert(gate_of(deps@.skip(k as int)) == shifted(g, 1));
        }
        k = k + 1;
    }
    proof {
        assert(deps@.skip(k as int).len() == 0);
    }
    Gate::Go
}

/// `g` with a waiting position moved `k` places along.
pub open spec fn shifted(g: Gate, k: int) -> Gate {
    match g {
        Gate::Wait(p) => Gate::Wait((p + k) as usize),
        other => other,
    }
}

/// The first dependency, in task order, that names no task.
fn first_unknown(ids: &[String], deps: &[Vec<String>]) -> (r: Option<(usize, usize)>)
    requires
        ids@.len() == deps@.len(),
    ensures
        r matches Some((task, dep)) ==> {
            &&& task < deps@.len()
            &&& dep < deps@[task as int]@.len()
            &&& !names_task(names(ids@), deps@[task as int]@[dep as int]@)
            &&& forall|i: int, k: int| 0 <= i < deps@.len() && 0 <= k < deps@[i]@.len() && before(i, k, task as int, dep as int)
                ==> names_task(names(ids@), #[trigger] dep_names(deps@)[i][k])
        },
        r is None ==> crate::taskgraph::all_known(names(ids@), dep_names(deps@)),
{
    let mut i: usize = 0;
    while i < deps.len()
        invariant
            ids@.len() == deps@.len(),
            0 <= i <= deps@.len(),
            forall|x: int, k: int| 0 <= x < i && 0 <= k < deps@[x]@.len()
                ==> names_task(names(ids@), #[trigger] dep_names(deps@)[x][k]),
        decreases deps@.len() - i,
    {
        let mut k: usize = 0;
        while k < deps[i].len()
            invariant
                ids@.len() == deps@.len(),
                0 <= i < deps@.len(),
                0 <= k <= deps@[i as int]@.len(),
                forall|x: int, q: int| 0 <= x < i && 0 <= q < deps@[x]@.len()
                    ==> names_task(names(ids@), #[trigger] dep_names(deps@)[x][q]),
                forall|q: int| 0 <= q < k ==> names_task(names(ids@), #[trigger] dep_names(deps@)[i as int][q]),
            decreases deps@[i as int]@.len() - k,
        {
            proof {
                assert(dep_names(deps@)[i as int] == names(deps@[i as int]@));
                assert(dep_names(deps@)[i as int][k as int] == deps@[i as int]@[k as int]@);
            }
            let mut j: usize = 0;
            let mut found = false;
            while j < ids.len() && !found
                invariant
                    0 <= j <= ids@.len(),
                    0 <= i < deps@.len(),
                    0 <= k < deps@[i as int]@.len(),
                    found ==> j < ids@.len() && ids@[j as int]@ == deps@[i as int]@[k as int]@,
                    !found ==> forall|q: int| 0 <= q < j ==> ids@[q]@ != deps@[i as int]@[k as int]@,
                decreases ids@.len() - j, if found { 0int } else { 1int },
            {
                if crate::text::str_eq(ids[j].as_str(), deps[i][k].as_str()) {
                    found = true;
                } else {
                    j = j + 1;
                }
            }
            if !found {
                proof {
                    if names_task(names(ids@), deps@[i as int]@[k as int]@) {
                        let w = choose|w: int| 0 <= w < names(ids@).len() && names(ids@)[w] == deps@[i as int]@[k as int]@;
                        assert(ids@[w]@ == deps@[i as int]@[k as int]@);
                    }
                    assert forall|x: int, q: int| 0 <= x < deps@.len() && 0 <= q < deps@[x]@.len() && before(x, q, i as int, k as int)
                        implies names_task(names(ids@), #[trigger] dep_names(deps@)[x][q]) by {
                    }
                }
                return Some((i, k));
            }
            proof {
                assert(names(ids@)[j as int] == ids@[j as int]@);
            }
            k = k + 1;
        }
        i = i + 1;
    }
    None
}

/// Checks a task graph before a run: the first dependency that names no task,
/// taking the tasks in order and each task's dependencies in order, is
/// reported; otherwise a graph that cannot be ordered (a cycle, or two tasks
/// sharing a name) is reported as a cycle.
pub fn validate_tasks(ids: &[String], deps: &[Vec<String>]) -> (r: Result<(), String>)
    requires
        ids@.len() == deps@.len(),
    ensures
        r is Ok <==> graph_verdict(names(ids@), dep_names(deps@), Ok(())),
        r matches Err(m) ==> (exists|task: int, dep: int|
            0 <= task < deps@.len() && 0 <= dep < deps@[task]@.len()
            && !names_task(names(ids@), deps@[task]@[dep]@)
            && (forall|i: int, k: int| 0 <= i < deps@.len() && 0 <= k < deps@[i]@.len() && before(i, k, task, dep)
                ==> names_task(names(ids@), #[trigger] dep_names(deps@)[i][k]))
            && m@ == "Task '"@ + ids@[task]@ + "' depends on '"@ + deps@[task]@[dep]@ + "', which is not registered"@)
            || (crate::taskgraph::all_known(names(ids@), dep_names(deps@)) && m@ == "Dependency cycle detected in task graph"@),
{
    match first_unknown(ids, deps) {
        Some((task, dep)) => {
            let mut m = String::new();
            push_str(&mut m, "Task '");
            push_str(&mut m, ids[task].as_str());
            push_str(&mut m, "' depends on '");
            push_str(&mut m, deps[task][dep].as_str());
            push_str(&mut m, "', which is not registered");
            proof {
                assert(!crate::taskgraph::all_known(names(ids@), dep_names(deps@))) by {
                    assert(dep_names(deps@)[task as int] == names(deps@[task as int]@));
                    assert(dep_names(deps@)[task as int][dep as int] == deps@[task as int]@[dep as int]@);
                }
            }
            Err(m)
        },
        None => {
            match check_graph(ids, deps) {
                Ok(()) => Ok(()),
                Err(_) => Err(owned("Dependency cycle detected in task graph")),
            }
        },
    }
}

} // verus!
