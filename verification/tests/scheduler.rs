use designkit::scheduler::{
    judge_attempt, retries_exhausted, Attempt, ClosureTask, DockerRun, ExecutionOutput, ExecutionStrategy,
    HttpRequest, RunState, ShellCommand, TaskError, TaskStatus, TimeoutConfig,
};
use designkit::task_report::{
    dependency_gate, http_summary, validate_tasks, Gate, HttpMethod, SchedulerReport, TaskOutput,
};
use designkit::taskgraph::{check_graph, GraphError};
use designkit::task_report::TaskStatus as S;

fn s(x: &str) -> String {
    x.to_string()
}

fn graph(spec: &[(&str, &[&str])]) -> (Vec<String>, Vec<Vec<String>>) {
    let ids = spec.iter().map(|(id, _)| s(id)).collect();
    let deps = spec.iter().map(|(_, d)| d.iter().map(|x| s(x)).collect()).collect();
    (ids, deps)
}

/// Runs every task to completion with the given outcome per task name.
fn run_all(ids: Vec<String>, deps: Vec<Vec<String>>, fail: &[&str]) -> Vec<(String, TaskStatus)> {
    let names = ids.clone();
    let mut st = RunState::new(ids, deps).unwrap();
    while !st.is_done() {
        let batch = st.start_batch(4);
        assert!(!batch.is_empty(), "deadlock");
        for t in batch {
            let result = if fail.contains(&names[t].as_str()) {
                Err(TaskError::ExecutionFailed(s("boom")))
            } else {
                Ok(ExecutionOutput::success("ok"))
            };
            st.finish(t, result);
        }
    }
    st.into_results()
}

#[test]
fn graph_accepts_a_chain() {
    let (ids, deps) = graph(&[("a", &[]), ("b", &["a"]), ("c", &["b"])]);
    assert_eq!(check_graph(&ids, &deps), Ok(()));
}

#[test]
fn graph_rejects_a_cycle() {
    let (ids, deps) = graph(&[("a", &["b"]), ("b", &["a"])]);
    assert_eq!(check_graph(&ids, &deps), Err(GraphError::Cycle));
    let (ids, deps) = graph(&[("a", &["a"])]);
    assert_eq!(check_graph(&ids, &deps), Err(GraphError::Cycle));
}

#[test]
fn graph_reports_the_first_unknown_dependency() {
    let (ids, deps) = graph(&[("a", &[]), ("b", &["a", "x"]), ("c", &["y"])]);
    assert_eq!(check_graph(&ids, &deps), Err(GraphError::UnknownDependency { task: 1, dep: 1 }));
}

#[test]
fn graph_rejects_duplicate_names() {
    let (ids, deps) = graph(&[("a", &[]), ("a", &[])]);
    assert_eq!(check_graph(&ids, &deps), Err(GraphError::DuplicateIds));
}

#[test]
fn run_state_messages() {
    let (ids, deps) = graph(&[("a", &["b"]), ("b", &["a"])]);
    let err = RunState::new(ids, deps).err().unwrap();
    assert!(err.contains("cycle"));
    let (ids, deps) = graph(&[("a", &["nonexistent"])]);
    let err = RunState::new(ids, deps).err().unwrap();
    assert_eq!(err, "task 'a' depends on unknown task 'nonexistent'");
    let (ids, deps) = graph(&[("a", &[]), ("a", &[])]);
    assert_eq!(RunState::new(ids, deps).err().unwrap(), "duplicate task IDs detected");
}

#[test]
fn chain_runs_in_dependency_order() {
    let (ids, deps) = graph(&[("c", &["b"]), ("b", &["a"]), ("a", &[])]);
    let mut st = RunState::new(ids, deps).unwrap();
    assert_eq!(st.start_batch(4), vec![2]);
    assert!(st.start_batch(4).is_empty());
    st.finish(2, Ok(ExecutionOutput::success("a")));
    assert_eq!(st.start_batch(4), vec![1]);
    st.finish(1, Ok(ExecutionOutput::success("b")));
    assert_eq!(st.start_batch(4), vec![0]);
    st.finish(0, Ok(ExecutionOutput::success("c")));
    assert!(st.is_done());
    let results = st.into_results();
    assert!(results.iter().all(|(_, s)| matches!(s, TaskStatus::Succeeded(_))));
}

#[test]
fn batches_respect_the_parallelism_limit() {
    let (ids, deps) = graph(&[("t0", &[]), ("t1", &[]), ("t2", &[]), ("t3", &[])]);
    let mut st = RunState::new(ids, deps).unwrap();
    assert_eq!(st.start_batch(3), vec![0, 1, 2]);
    assert!(st.is_running(1));
    assert_eq!(st.start_batch(3), vec![3]);
}

#[test]
fn failure_cascades_to_dependents() {
    let (ids, deps) = graph(&[("a", &[]), ("b", &["a"]), ("c", &["b"]), ("d", &[])]);
    let results = run_all(ids, deps, &["a"]);
    assert!(matches!(results[0].1, TaskStatus::Failed(TaskError::ExecutionFailed(_))));
    match &results[1].1 {
        TaskStatus::Failed(TaskError::DependencyFailed(d)) => assert_eq!(d, "a"),
        other => panic!("unexpected {:?}", other),
    }
    assert!(matches!(results[2].1, TaskStatus::Failed(TaskError::DependencyFailed(_))));
    assert!(matches!(results[3].1, TaskStatus::Succeeded(_)));
}

#[test]
fn diamond_runs_to_completion() {
    let (ids, deps) = graph(&[("a", &[]), ("b", &["a"]), ("c", &["a"]), ("d", &["b", "c"])]);
    let results = run_all(ids, deps, &[]);
    assert_eq!(results.len(), 4);
    assert_eq!(results[3].0, "d");
    assert!(results.iter().all(|(_, s)| matches!(s, TaskStatus::Succeeded(_))));
}

#[test]
fn attempts_are_judged() {
    match judge_attempt(Ok(ExecutionOutput::failure("bad", -2))) {
        Attempt::Retry(m) => assert_eq!(m, "non-zero exit code -2: bad"),
        other => panic!("unexpected {:?}", other),
    }
    assert!(matches!(judge_attempt(Ok(ExecutionOutput::success("x"))), Attempt::Finished(Ok(_))));
    match judge_attempt(Err(TaskError::ExecutionFailed(s("nope")))) {
        Attempt::Retry(m) => assert_eq!(m, "nope"),
        other => panic!("unexpected {:?}", other),
    }
    assert!(matches!(
        judge_attempt(Err(TaskError::DependencyFailed(s("a")))),
        Attempt::Finished(Err(TaskError::DependencyFailed(_)))
    ));
    assert_eq!(retries_exhausted(3, s("boom")).to_string(), "failed after 3 attempts: boom");
}

#[test]
fn errors_display() {
    assert_eq!(TaskError::ExecutionFailed(s("x")).to_string(), "execution failed: x");
    assert_eq!(TaskError::DependencyFailed(s("a")).to_string(), "dependency 'a' failed");
    assert!(TaskError::TimedOut(std::time::Duration::from_secs(2)).to_string().starts_with("timed out after "));
}

#[test]
fn strategies_simulate_success() {
    let out = ShellCommand::new("echo hi").execute().unwrap();
    assert_eq!(out.stdout, "shell output of `echo hi`");
    assert_eq!(ShellCommand::new("x").name(), "shell");
    let out = HttpRequest::get("https://example.com").execute().unwrap();
    assert_eq!(out.stdout, "200 OK from https://example.com");
    assert_eq!(HttpRequest::post("u", "b").body, Some(s("b")));
    let out = DockerRun::new("alpine", vec![s("echo")]).execute().unwrap();
    assert_eq!(out.stdout, "container alpine finished");
    let c = ClosureTask::new("finalize", || Ok(ExecutionOutput::success("done")));
    assert_eq!(c.execute().unwrap().stdout, "done");
    assert_eq!(c.name(), "closure");
    assert!(TimeoutConfig::seconds(5).duration.is_some());
    assert!(TimeoutConfig::default().duration.is_none());
}

#[test]
fn report_summaries() {
    let mut report = SchedulerReport::new();
    report.record(s("a"), designkit::task_report::TaskStatus::Succeeded(TaskOutput { stdout: s("ok"), exit_code: 0 }));
    report.record(s("b"), designkit::task_report::TaskStatus::Running);
    report.record(s("c"), designkit::task_report::TaskStatus::Cancelled);
    report.record(s("b"), designkit::task_report::TaskStatus::TimedOut);
    assert_eq!(report.statuses().len(), 3);
    assert!(!report.all_succeeded());
    assert_eq!(report.failed_tasks(), vec![&s("b")]);
    assert!(designkit::task_report::TaskStatus::Cancelled.is_terminal());
    assert!(!designkit::task_report::TaskStatus::Waiting.is_terminal());
    assert_eq!(http_summary(HttpMethod::Post, "http://x", 201), "HTTP Post http://x -> 201");
}

#[test]
fn gate_waits_then_cancels_or_goes() {
    let ok = || S::Succeeded(TaskOutput { stdout: s(""), exit_code: 0 });
    assert_eq!(dependency_gate(&[ok(), S::Running, S::Cancelled]), Gate::Wait(1));
    assert_eq!(dependency_gate(&[ok(), S::TimedOut, S::Running]), Gate::Cancel);
    assert_eq!(dependency_gate(&[ok(), ok()]), Gate::Go);
    assert_eq!(dependency_gate(&[]), Gate::Go);
}

#[test]
fn validation_messages_of_the_concurrent_scheduler() {
    let (ids, deps) = graph(&[("a", &["ghost"])]);
    assert_eq!(validate_tasks(&ids, &deps).unwrap_err(), "Task 'a' depends on 'ghost', which is not registered");
    let (ids, deps) = graph(&[("a", &["b"]), ("b", &["a"])]);
    assert_eq!(validate_tasks(&ids, &deps).unwrap_err(), "Dependency cycle detected in task graph");
    let (ids, deps) = graph(&[("a", &[]), ("b", &["a"]), ("c", &["a"]), ("d", &["b", "c"])]);
    assert!(validate_tasks(&ids, &deps).is_ok());
}
