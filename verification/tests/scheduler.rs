use mono::cache::error::CacheError;
use mono::cache::key::{input_files, task_key_with_session, CacheSession};
use mono::cache::CacheMode;
use mono::commands::ci::PipelineExecution;
use mono::config::{
    default_pipeline, default_schema, MonoConfig, PipelineConfig, ProjectConfig, StdinMode,
    TaskConfig,
};
use mono::events::TaskStatus;
use mono::io::{IoError, IoErrorKind};
use mono::map::TextMap;
use mono::path::relative_path;
use mono::project::error::{ProjectError, TaskNode};
use mono::project::planned::{directories_to_resolve, PlannedTask};
use mono::project::validate::{Directories, Resolution};
use mono::project::Project;
use mono::runner::error::{RunnerError, TaskResult};
use mono::runner::stream::CapturedOutput;
use mono::runner::CancellationToken;
use mono::scheduler::error::SchedulerError;
use mono::scheduler::run::{LoopAction, LoopEvent, Scheduler, WorkerJob};
use mono::scheduler::state::PlanState;
use mono::scheduler::summary::{classify, ExecutionSummary};
use mono::scheduler::worker::{WorkAction, WorkEvent, Worker, WorkerReport};
use mono::time::Duration;

fn strings(value: &toml::Value) -> Result<Vec<String>, String> {
    value
        .as_array()
        .ok_or("expected a list")?
        .iter()
        .map(|item| Ok(item.as_str().ok_or("expected a text")?.to_owned()))
        .collect()
}

fn number(value: &toml::Value) -> Result<u64, String> {
    u64::try_from(value.as_integer().ok_or("expected a number")?).map_err(|e| e.to_string())
}

fn table(value: &toml::Value) -> Result<&toml::Table, String> {
    value.as_table().ok_or("expected a table".to_owned())
}

fn task_config(value: &toml::Value) -> Result<TaskConfig, String> {
    let fields = table(value)?;
    let command = fields.get("command").ok_or("missing field `command`")?;
    let mut task = TaskConfig::with_command(strings(command)?);
    for (name, value) in fields {
        match name.as_str() {
            "command" => {}
            "depends_on" => task.depends_on = strings(value)?,
            "cwd" => task.cwd = Some(value.as_str().ok_or("expected a text")?.to_owned()),
            "env" => {
                for (name, value) in table(value)? {
                    let value = value.as_str().ok_or("expected a text")?;
                    task.env.insert(name.clone(), value.to_owned());
                }
            }
            "stdin" => {
                task.stdin = match value.as_str() {
                    Some("null") => StdinMode::Null,
                    Some("inherit") => StdinMode::Inherit,
                    _ => return Err("unknown variant".to_owned()),
                }
            }
            "cache" => task.cache = value.as_bool().ok_or("expected a truth value")?,
            "inputs" => task.inputs = strings(value)?,
            "outputs" => task.outputs = strings(value)?,
            "cache_env" => task.cache_env = strings(value)?,
            "timeout_seconds" => task.timeout_seconds = number(value)?,
            "max_output_bytes" => task.max_output_bytes = number(value)?,
            "resource_group" => {
                task.resource_group = Some(value.as_str().ok_or("expected a text")?.to_owned())
            }
            "retries" => task.retries = number(value)? as u32,
            "retry_backoff_seconds" => task.retry_backoff_seconds = number(value)?,
            "matrix" => {
                for (name, values) in table(value)? {
                    task.matrix.insert(name.clone(), strings(values)?);
                }
            }
            other => return Err(format!("unknown field `{other}`")),
        }
    }
    Ok(task)
}

fn pipeline_config(value: &toml::Value) -> Result<PipelineConfig, String> {
    let fields = table(value)?;
    let tasks = strings(fields.get("tasks").ok_or("missing field `tasks`")?)?;
    let finally = match fields.get("finally") {
        Some(list) => strings(list)?,
        None => Vec::new(),
    };
    Ok(PipelineConfig { tasks, finally })
}

/// Read a manifest the way its schema says.
fn parse(contents: &str) -> Result<MonoConfig, String> {
    let fields: toml::Table = contents.parse().map_err(|e: toml::de::Error| e.to_string())?;
    for name in fields.keys() {
        if !["schema", "project", "tasks", "pipelines"].contains(&name.as_str()) {
            return Err(format!("unknown field `{name}`"));
        }
    }
    let project = table(fields.get("project").ok_or("missing field `project`")?)?;
    let name = project.get("name").and_then(|name| name.as_str());
    let mut config = MonoConfig {
        schema: match fields.get("schema") {
            Some(schema) => number(schema)? as u32,
            None => default_schema(),
        },
        project: ProjectConfig {
            name: name.ok_or("missing field `name`")?.to_owned(),
            default_pipeline: match project.get("default_pipeline").and_then(|name| name.as_str()) {
                Some(name) => name.to_owned(),
                None => default_pipeline(),
            },
        },
        tasks: TextMap::new(),
        pipelines: TextMap::new(),
    };
    if let Some(tasks) = fields.get("tasks") {
        for (name, task) in table(tasks)? {
            config.tasks.insert(name.clone(), task_config(task)?);
        }
    }
    if let Some(pipelines) = fields.get("pipelines") {
        for (name, pipeline) in table(pipelines)? {
            config.pipelines.insert(name.clone(), pipeline_config(pipeline)?);
        }
    }
    Ok(config)
}

const ROOT: &str = "/work";

/// The directories of a tree that holds the root and what is listed.
fn directories(config: &MonoConfig, existing: &[&str]) -> Directories {
    let mut resolved = TextMap::new();
    for wanted in directories_to_resolve(ROOT, &config.tasks) {
        let canonical = format!("/{}", relative_path(&wanted).trim_start_matches('/'));
        if canonical == ROOT || existing.contains(&canonical.as_str()) {
            resolved.insert(wanted, Resolution::Directory(canonical));
        }
    }
    Directories { resolved }
}

fn try_load(manifest: &str) -> (Result<Project, ProjectError>, Directories) {
    let config = parse(manifest).expect("manifest parses");
    let directories = directories(&config, &[]);
    (Project::load(ROOT, config, &directories), directories)
}

fn load(manifest: &str) -> (Directories, Project) {
    let (project, directories) = try_load(manifest);
    (directories, project.expect("project loads"))
}


fn planned(manifest: &str) -> Vec<PlannedTask> {
    let (directories, project) = load(manifest);
    project
        .plan(&directories, None, &Vec::new())
        .expect("plan succeeds")
}

fn nodes(ids: &[&str]) -> Vec<TaskNode> {
    ids.iter().map(|id| TaskNode::new(id)).collect()
}

fn finished(cached: bool) -> TaskResult {
    TaskResult {
        output: CapturedOutput::empty(),
        elapsed: Duration::zero(),
        cached,
    }
}

fn succeeded() -> Result<TaskResult, RunnerError> {
    Ok(finished(false))
}

fn empty_command(task: &str) -> RunnerError {
    RunnerError::EmptyCommand {
        project: "fixture".to_owned(),
        task: task.to_owned(),
    }
}

fn invalid(message: &str) -> CacheError {
    CacheError::Invalid {
        message: message.to_owned(),
    }
}

fn id_of(node: Option<TaskNode>) -> Option<String> {
    node.map(|node| node.id().to_owned())
}

#[test]
fn a_finished_plan_accounts_for_every_task() {
    let (summary, first_error) = classify(
        &nodes(&["a", "b", "c"]),
        &vec![Some(TaskStatus::Completed), Some(TaskStatus::Cached), None],
    );

    assert_eq!(
        summary,
        ExecutionSummary {
            completed: 1,
            cached: 1,
            failed: 0,
            cancelled: 0,
            blocked: 1,
        }
    );
    assert!(first_error.is_none());
}

#[test]
fn every_failure_kind_counts_as_failed_and_the_first_one_wins() {
    let (summary, first_error) = classify(
        &nodes(&["a", "b", "c"]),
        &vec![
            Some(TaskStatus::TimedOut),
            Some(TaskStatus::Failed),
            Some(TaskStatus::OutputLimit),
        ],
    );

    assert_eq!(summary.failed, 3);
    assert_eq!(id_of(first_error), Some("a".to_owned()));
}

#[test]
fn a_cancelled_task_is_counted_separately_and_still_reported() {
    let (summary, first_error) = classify(
        &nodes(&["a", "b"]),
        &vec![Some(TaskStatus::Cancelled), Some(TaskStatus::Failed)],
    );

    assert_eq!(summary.cancelled, 1);
    assert_eq!(summary.failed, 1);
    assert_eq!(
        id_of(first_error),
        Some("a".to_owned()),
        "an interrupted run must still report an error, or Ctrl-C would exit 0"
    );
}

#[test]
fn a_plan_of_only_cancelled_tasks_still_reports_an_error() {
    let (summary, first_error) = classify(
        &nodes(&["a", "b"]),
        &vec![Some(TaskStatus::Cancelled), Some(TaskStatus::Cancelled)],
    );

    assert_eq!(summary.cancelled, 2);
    assert_eq!(summary.failed, 0);
    assert_eq!(id_of(first_error), Some("a".to_owned()));
}

const SINGLE: &str = "[project]\nname = \"fixture\"\n\n[pipelines.ci]\ntasks = [\"a\"]\n\n[tasks.a]\ncommand = [\"echo\", \"a\"]\n";

const BUILD: &str = "[project]\nname = \"fixture\"\n\n[pipelines.ci]\ntasks = [\"build\"]\n\n[tasks.build]\ncommand = [\"echo\", \"build\"]\n";

const WITH_CLEANUP: &str = "[project]\nname = \"fixture\"\n\n[pipelines.ci]\ntasks = [\"build\"]\nfinally = [\"cleanup\"]\n\n[tasks.build]\ncommand = [\"echo\", \"build\"]\n\n[tasks.cleanup]\ncommand = [\"echo\", \"cleanup\"]\n";

const CHAIN: &str = "[project]\nname = \"fixture\"\n\n[pipelines.ci]\ntasks = [\"app\"]\n\n[tasks.base]\ncommand = [\"echo\", \"base\"]\n\n[tasks.app]\ncommand = [\"echo\", \"app\"]\ndepends_on = [\"base\"]\n";

const CACHED: &str = "[project]\nname = \"fixture\"\n\n[pipelines.ci]\ntasks = [\"build\"]\n\n[tasks.build]\ncommand = [\"echo\", \"build\"]\ncache = true\ninputs = [\"src/**\"]\noutputs = [\"out/**\"]\n";

#[test]
fn constructor_accepts_a_valid_plan() {
    let state = PlanState::new(planned(SINGLE)).expect("valid plan succeeds");
    assert_eq!(state.ready_count(), 1);
    assert_eq!(state.active_count(), 0);
}

#[test]
fn a_dependency_outside_the_plan_is_refused() {
    let mut plan = planned(SINGLE);
    plan[0].depends_on.push(TaskNode::new("elsewhere"));
    assert!(matches!(
        PlanState::new(plan),
        Err(SchedulerError::UnresolvedDependency { .. })
    ));
}

#[test]
fn dispatching_reserves_a_resource_group_and_completion_releases_it() {
    let plan = planned(
        "[project]\nname = \"fixture\"\n\n[pipelines.ci]\ntasks = [\"a\", \"b\"]\n\n[tasks.a]\ncommand = [\"echo\", \"a\"]\nresource_group = \"db\"\n\n[tasks.b]\ncommand = [\"echo\", \"b\"]\nresource_group = \"db\"\n",
    );
    let mut state = PlanState::new(plan).expect("plan succeeds");

    assert_eq!(state.next_ready(), Some(TaskNode::new("a")));
    assert!(state.active_groups.is_empty());

    state.mark_dispatched(&TaskNode::new("a"), false);
    assert!(state.holds_group("db"));

    assert_eq!(state.next_ready(), None);

    state.complete(TaskNode::new("a"), succeeded(), None, None);
    assert!(!state.holds_group("db"));

    assert_eq!(state.next_ready(), Some(TaskNode::new("b")));
}

#[test]
fn normal_failure_unblocks_finalizers_but_not_new_normal_tasks() {
    let mut state = PlanState::new(planned(WITH_CLEANUP)).expect("plan succeeds");

    assert!(!state.finalizers_allowed());

    state.mark_dispatched(&TaskNode::new("build"), false);
    state.complete(TaskNode::new("build"), Err(empty_command("build")), None, None);

    assert!(state.stopping);
    assert!(state.finalizers_allowed());
    assert_eq!(state.next_ready(), Some(TaskNode::new("cleanup")));
}

#[test]
fn stopping_admits_only_finalizers() {
    let mut state = PlanState::new(planned(WITH_CLEANUP)).expect("plan succeeds");

    state.mark_dispatched(&TaskNode::new("build"), false);
    state.complete(TaskNode::new("build"), Err(empty_command("build")), None, None);
    assert!(state.stopping);

    assert_eq!(state.next_ready(), Some(TaskNode::new("cleanup")));
}

#[test]
fn a_finalizer_waits_until_normal_work_is_done() {
    let mut state = PlanState::new(planned(WITH_CLEANUP)).expect("plan succeeds");

    assert_eq!(state.next_ready(), Some(TaskNode::new("build")));

    state.mark_dispatched(&TaskNode::new("build"), false);
    state.complete(TaskNode::new("build"), succeeded(), None, None);

    assert!(state.finalizers_allowed());
    assert_eq!(state.next_ready(), Some(TaskNode::new("cleanup")));
}

#[test]
fn cache_failure_stops_dispatch_and_still_permits_finalizer_closure() {
    let mut state = PlanState::new(planned(WITH_CLEANUP)).expect("plan succeeds");

    state.mark_dispatched(&TaskNode::new("build"), false);
    state.complete(
        TaskNode::new("build"),
        succeeded(),
        None,
        Some(invalid("disk full")),
    );

    assert!(state.stopping);
    assert!(state.finalizers_allowed());
    assert_eq!(state.next_ready(), Some(TaskNode::new("cleanup")));
}

#[test]
fn completion_classification_accounts_for_every_node_exactly_once() {
    let plan = planned(SINGLE);
    let tasks = plan.len();
    let mut state = PlanState::new(plan).expect("plan succeeds");

    state.mark_dispatched(&TaskNode::new("a"), false);
    state.complete(TaskNode::new("a"), succeeded(), None, None);

    let (summary, first_error) = state.finish();
    assert_eq!(summary.completed, 1);
    assert_eq!(
        summary.completed + summary.cached + summary.failed + summary.cancelled + summary.blocked,
        tasks
    );
    assert!(first_error.is_none());
}

#[test]
fn the_first_failed_node_is_selected_in_plan_order() {
    let plan = planned(
        "[project]\nname = \"fixture\"\n\n[pipelines.ci]\ntasks = [\"a\", \"b\"]\n\n[tasks.a]\ncommand = [\"echo\", \"a\"]\n\n[tasks.b]\ncommand = [\"echo\", \"b\"]\ndepends_on = [\"a\"]\n",
    );
    let mut state = PlanState::new(plan).expect("plan succeeds");

    state.mark_dispatched(&TaskNode::new("a"), false);
    state.complete(TaskNode::new("a"), succeeded(), None, None);
    state.mark_dispatched(&TaskNode::new("b"), false);
    state.complete(TaskNode::new("b"), Err(empty_command("b")), None, None);

    let (_, first_error) = state.finish();
    assert_eq!(id_of(first_error), Some("b".to_owned()));
}

#[test]
fn scheduler_errors_expose_a_source_exactly_when_they_wrap_one() {
    let with_source = [
        SchedulerError::Task(Box::new(empty_command("build"))),
        SchedulerError::Cache(invalid("bad entry")),
        SchedulerError::Output(IoError::new(IoErrorKind::BrokenPipe, "closed")),
    ];
    for error in &with_source {
        assert!(error.source().is_some(), "{}", error.message());
    }

    let bare = [
        SchedulerError::UnresolvedDependency {
            task: TaskNode::new("app"),
            dependency: TaskNode::new("base"),
        },
        SchedulerError::NoReadyWork,
        SchedulerError::Cancelled,
    ];
    for error in &bare {
        assert!(error.source().is_none(), "{}", error.message());
        assert!(!error.message().is_empty(), "{}", error.message());
    }
}

/// A cache that records calls and returns scripted results.
#[derive(Default)]
struct ScriptedCache {
    hit: Option<TaskResult>,
    key_error: Option<CacheError>,
    store_error: Option<CacheError>,
    /// Work out the key in a tree without any file.
    empty_tree: bool,
    calls: Vec<&'static str>,
    environments: Vec<TextMap<String>>,
}

/// What one run meets: which tasks fail, what the cache says, and whether
/// anything can be announced.
#[derive(Default)]
struct Script {
    failures: Vec<&'static str>,
    cache: ScriptedCache,
    present_error: Option<IoError>,
    cancellation: CancellationToken,
    calls: Vec<String>,
    sleeps: Vec<Duration>,
}

fn session(environment: TextMap<String>) -> CacheSession {
    CacheSession {
        project_manifest: Vec::new(),
        environment,
        os: "linux".to_owned(),
        arch: "x86_64".to_owned(),
    }
}

impl Script {
    fn failing(ids: &[&'static str]) -> Self {
        Self {
            failures: ids.to_vec(),
            ..Self::default()
        }
    }

    fn execute(&mut self, task: &PlannedTask) -> Result<TaskResult, RunnerError> {
        self.calls.push(task.id().to_owned());
        if self.failures.contains(&task.id()) {
            return Err(empty_command(task.id()));
        }
        succeeded()
    }

    fn key(&mut self, task: &PlannedTask, dependency_keys: &Vec<String>) -> Result<String, CacheError> {
        self.cache.calls.push("task_key");
        if let Some(error) = self.cache.key_error.take() {
            return Err(error);
        }
        if self.cache.empty_tree {
            input_files(task, &Vec::new())?;
            let session = session(TextMap::new());
            return task_key_with_session(&session, task, dependency_keys, &Vec::new());
        }
        Ok("abc123".to_owned())
    }

    fn work(&mut self, task: PlannedTask, job: &WorkerJob) -> WorkerReport {
        let mut worker = Worker::new(task.clone(), job.can_cache, job.force);
        let mut event = WorkEvent::Begin;
        loop {
            event = match worker.execute_task(event) {
                WorkAction::ComputeKey => WorkEvent::Keyed(self.key(&task, &job.dependency_keys)),
                WorkAction::LookUp => {
                    self.cache.calls.push("lookup");
                    WorkEvent::LookedUp(Ok(self.cache.hit.clone()))
                }
                WorkAction::Announce { .. } => WorkEvent::Announced(Ok(())),
                WorkAction::Execute => WorkEvent::Executed(self.execute(&task)),
                WorkAction::Sleep(pause) => {
                    self.sleeps.push(pause);
                    WorkEvent::Slept
                }
                WorkAction::Store { refresh } => {
                    self.cache.calls.push(if refresh { "refresh" } else { "store" });
                    WorkEvent::Stored(match self.cache.store_error.take() {
                        Some(error) => Err(error),
                        None => Ok(()),
                    })
                }
                WorkAction::Report(report) => return report,
            }
        }
    }

    /// Run a plan on one worker.
    fn run(
        &mut self,
        manifest: &str,
        cache_mode: CacheMode,
        environment: TextMap<String>,
    ) -> Result<ExecutionSummary, SchedulerError> {
        let plan = planned(manifest);
        let mut scheduler = Scheduler::new(plan.clone(), 1, cache_mode)?;
        if scheduler.needs_cache_session() {
            self.cache.calls.push("prepare");
            self.cache.environments.push(environment);
        }
        let mut event = LoopEvent::Begin;
        let mut reports = Vec::new();
        loop {
            event = match scheduler.step(event, self.cancellation.is_cancelled()) {
                LoopAction::Present(_) => LoopEvent::Presented(match self.present_error.take() {
                    Some(error) => Err(error),
                    None => Ok(()),
                }),
                LoopAction::Dispatch(job) => {
                    let task = plan.iter().find(|task| task.node() == job.node).unwrap();
                    let report = self.work(task.clone(), &job);
                    reports.push((job.node, report));
                    LoopEvent::Dispatched
                }
                LoopAction::Await => {
                    let (node, report) = reports.remove(0);
                    LoopEvent::Reported { node, report }
                }
                LoopAction::Finish => break,
            }
        }
        assert!(!scheduler.stuck());
        scheduler.verdict(self.cancellation.is_cancelled()).1
    }
}

#[test]
fn a_chain_runs_in_dependency_order_and_accounts_for_every_task() {
    let mut script = Script::default();
    let summary = script
        .run(CHAIN, CacheMode::NoCache, TextMap::new())
        .expect("the chain succeeds");

    assert_eq!(script.calls, vec!["base".to_owned(), "app".to_owned()]);
    assert_eq!(summary.completed, 2);
    assert_eq!(summary.failed + summary.cancelled + summary.blocked, 0);
}

#[test]
fn a_failed_task_stops_normal_work_but_still_runs_finalizers() {
    let mut script = Script::failing(&["build"]);
    let error = script
        .run(WITH_CLEANUP, CacheMode::NoCache, TextMap::new())
        .expect_err("a failed task is the reported error");

    assert!(matches!(error, SchedulerError::Task(_)), "{}", error.message());
    assert_eq!(
        script.calls,
        vec!["build".to_owned(), "cleanup".to_owned()],
        "the finalizer must run after a normal failure"
    );
}

#[test]
fn a_cancelled_run_blocks_normal_work_and_reports_cancelled() {
    let mut script = Script::default();
    script.cancellation.cancel();

    let error = script
        .run(BUILD, CacheMode::NoCache, TextMap::new())
        .expect_err("a cancelled run is an error");

    assert!(matches!(error, SchedulerError::Cancelled), "{}", error.message());
    assert!(
        script.calls.is_empty(),
        "a cancelled task must never reach the executor"
    );
}

#[test]
fn an_output_failure_is_reported_before_any_task_runs() {
    let mut script = Script {
        present_error: Some(IoError::new(IoErrorKind::BrokenPipe, "consumer hung up")),
        ..Script::default()
    };

    let error = script
        .run(BUILD, CacheMode::NoCache, TextMap::new())
        .expect_err("a renderer failure stops the run");

    assert!(matches!(error, SchedulerError::Output(_)), "{}", error.message());
    assert!(script.calls.is_empty());
}

#[test]
fn a_cache_failure_is_reported_before_the_task_runs() {
    let mut script = Script::default();
    script.cache.empty_tree = true;
    let error = script
        .run(
            "[project]\nname = \"fixture\"\n\n[pipelines.ci]\ntasks = [\"build\"]\n\n[tasks.build]\ncommand = [\"echo\", \"build\"]\ncache = true\ninputs = [\"missing/**\"]\noutputs = [\"out/**\"]\n",
            CacheMode::ReadWrite,
            TextMap::new(),
        )
        .expect_err("an unmatched input pattern is a cache failure");

    assert!(matches!(error, SchedulerError::Cache(_)), "{}", error.message());
    assert!(
        script.calls.is_empty(),
        "the task must not run when its key cannot be computed"
    );
}

#[test]
fn independent_tasks_run_once_each_at_one_worker() {
    let mut script = Script::default();
    let summary = script
        .run(
            "[project]\nname = \"fixture\"\n\n[pipelines.ci]\ntasks = [\"a\", \"b\", \"c\"]\n\n[tasks.a]\ncommand = [\"echo\", \"a\"]\n\n[tasks.b]\ncommand = [\"echo\", \"b\"]\n\n[tasks.c]\ncommand = [\"echo\", \"c\"]\n",
            CacheMode::NoCache,
            TextMap::new(),
        )
        .expect("independent tasks succeed");

    let mut calls = script.calls;
    calls.sort();
    assert_eq!(calls, vec!["a".to_owned(), "b".to_owned(), "c".to_owned()]);
    assert_eq!(summary.completed, 3);
}

#[test]
fn a_cache_hit_returns_the_cached_result_and_never_calls_the_executor() {
    let mut script = Script::default();
    script.cache.hit = Some(finished(true));

    let summary = script
        .run(CACHED, CacheMode::ReadWrite, TextMap::new())
        .expect("cache hit succeeds");

    assert!(
        script.calls.is_empty(),
        "a cache hit must not invoke the task executor"
    );
    assert_eq!(summary.cached, 1);
    assert_eq!(summary.completed, 0);
}

#[test]
fn a_forced_run_does_not_look_for_a_hit() {
    let mut script = Script::default();
    script.cache.hit = Some(finished(true));

    let summary = script
        .run(CACHED, CacheMode::Force, TextMap::new())
        .expect("the run succeeds");

    assert_eq!(script.calls, vec!["build"]);
    assert_eq!(script.cache.calls, vec!["prepare", "task_key", "refresh"]);
    assert_eq!(summary.completed, 1);
}

#[test]
fn a_key_failure_returns_cache_error_before_the_executor_runs() {
    let mut script = Script::default();
    script.cache.key_error = Some(invalid("key computation failed"));

    let error = script
        .run(CACHED, CacheMode::ReadWrite, TextMap::new())
        .expect_err("a key failure must return a cache error");

    assert!(matches!(error, SchedulerError::Cache(_)), "{}", error.message());
    assert!(
        script.calls.is_empty(),
        "a key failure must not invoke the task executor"
    );
}

#[test]
fn a_store_failure_reports_cache_error_after_the_task_result_is_presented() {
    let mut script = Script::default();
    script.cache.store_error = Some(invalid("store failed"));

    let error = script
        .run(CACHED, CacheMode::ReadWrite, TextMap::new())
        .expect_err("a store failure must return a cache error");

    assert!(matches!(error, SchedulerError::Cache(_)), "{}", error.message());
    assert_eq!(script.calls, vec!["build"]);
}

#[test]
fn a_task_with_retries_invokes_the_executor_repeatedly_with_backoff() {
    let mut script = Script::failing(&["build"]);

    let error = script
        .run(
            "[project]\nname = \"fixture\"\n\n[pipelines.ci]\ntasks = [\"build\"]\n\n[tasks.build]\ncommand = [\"echo\", \"build\"]\nretries = 2\nretry_backoff_seconds = 1\n",
            CacheMode::NoCache,
            TextMap::new(),
        )
        .expect_err("a failing task is the reported error");

    assert!(matches!(error, SchedulerError::Task(_)), "{}", error.message());
    assert_eq!(script.calls, vec!["build", "build", "build"]);
    assert_eq!(
        script.sleeps.len(),
        2,
        "expected exactly two backoff sleeps"
    );
    for pause in &script.sleeps {
        assert_eq!(*pause, Duration::from_secs(1));
    }
}

#[test]
fn nocache_does_not_call_the_fake_cache_at_all() {
    let mut script = Script::default();

    let summary = script
        .run(CACHED, CacheMode::NoCache, TextMap::new())
        .expect("NoCache succeeds");

    assert_eq!(summary.completed, 1);
    assert_eq!(summary.cached, 0);
    assert!(
        script.cache.calls.is_empty(),
        "NoCache must not call any cache method"
    );
}

#[test]
fn the_fixed_environment_map_is_passed_to_cache_preparation() {
    let mut script = Script::default();
    let mut environment = TextMap::new();
    environment.insert("CI".to_owned(), "true".to_owned());
    environment.insert("BRANCH".to_owned(), "main".to_owned());

    let _ = script.run(CACHED, CacheMode::ReadWrite, environment.clone());

    assert_eq!(script.cache.environments, vec![environment]);
}

#[test]
fn loaded_pipeline_uses_the_injected_executor_and_returns_summary() {
    let mut script = Script::default();
    script.cache.hit = Some(finished(true));

    let summary = script
        .run(CHAIN, CacheMode::NoCache, TextMap::new())
        .expect("injected pipeline succeeds");

    assert_eq!(script.calls, vec!["base".to_owned(), "app".to_owned()]);
    assert_eq!(summary.completed, 2);
    assert_eq!(summary.cached, 0);
}

#[test]
fn loaded_pipeline_does_not_invoke_the_executor_when_the_injected_cache_hits() {
    let mut script = Script::default();
    script.cache.hit = Some(finished(true));
    let execution = PipelineExecution::default();

    let summary = script
        .run(
            "[project]\nname = \"fixture\"\n\n[pipelines.ci]\ntasks = [\"build\"]\n\n[tasks.build]\ncommand = [\"echo\", \"build\"]\ncache = true\ninputs = [\"src/**\"]\noutputs = [\"dist/**\"]\n",
            execution.cache,
            TextMap::new(),
        )
        .expect("cached pipeline succeeds");

    assert!(script.calls.is_empty());
    assert_eq!(summary.cached, 1);
    assert_eq!(summary.completed, 0);
}

#[test]
fn a_failed_dependency_blocks_what_waits_for_it() {
    let mut script = Script::failing(&["base"]);
    let error = script.run(CHAIN, CacheMode::NoCache, TextMap::new()).unwrap_err();
    assert!(matches!(error, SchedulerError::Task(_)));
    assert_eq!(script.calls, vec!["base"]);
}

#[test]
fn two_workers_take_two_independent_tasks() {
    let plan = planned(
        "[project]\nname = \"fixture\"\n\n[pipelines.ci]\ntasks = [\"a\", \"b\", \"c\"]\n\n[tasks.a]\ncommand = [\"echo\", \"a\"]\n\n[tasks.b]\ncommand = [\"echo\", \"b\"]\n\n[tasks.c]\ncommand = [\"echo\", \"c\"]\n",
    );
    let mut scheduler = Scheduler::new(plan, 2, CacheMode::NoCache).unwrap();
    for id in ["a", "b"] {
        let event = if id == "a" {
            LoopEvent::Begin
        } else {
            LoopEvent::Dispatched
        };
        assert!(matches!(
            scheduler.step(event, false),
            LoopAction::Present(node) if node.id() == id
        ));
        assert!(matches!(
            scheduler.step(LoopEvent::Presented(Ok(())), false),
            LoopAction::Dispatch(job) if job.node.id() == id
        ));
    }
    assert!(matches!(
        scheduler.step(LoopEvent::Dispatched, false),
        LoopAction::Await
    ));
    assert_eq!(scheduler.state.active_count(), 2);
}

#[test]
fn every_planned_task_can_be_scheduled_and_run() {
    let plan = planned(
        "[project]\nname = \"fixture\"\n\n[pipelines.ci]\ntasks = [\"app\", \"base\"]\nfinally = [\"cleanup\"]\n\n[tasks.base]\ncommand = [\"echo\", \"base\"]\n\n[tasks.app]\ncommand = [\"echo\", \"app\"]\ndepends_on = [\"base\"]\n\n[tasks.prune]\ncommand = [\"echo\", \"prune\"]\n\n[tasks.cleanup]\ncommand = [\"echo\", \"cleanup\"]\ndepends_on = [\"prune\"]\n",
    );

    let ids: Vec<&str> = plan.iter().map(PlannedTask::id).collect();
    assert_eq!(ids, vec!["base", "app", "prune", "cleanup"]);
    assert_eq!(
        plan.iter().map(|task| task.finalizer).collect::<Vec<_>>(),
        vec![false, false, true, true]
    );
    for (place, task) in plan.iter().enumerate() {
        assert!(!(task.finalizer && task.cache));
        assert!(!task.command.is_empty());
        assert!(task.timeout.nanos > 0);
        assert!(task.max_output_bytes > 0);
        assert!(task.cwd.starts_with(ROOT));
        for dependency in &task.depends_on {
            assert!(ids[..place].contains(&dependency.id.as_str()));
        }
    }
    assert!(Scheduler::new(plan, 1, CacheMode::NoCache).is_ok());
}

#[test]
fn a_task_that_waits_for_a_finalizer_is_never_run() {
    let mut script = Script::default();
    let summary = script.run(
        "[project]\nname = \"fixture\"\n\n[pipelines.ci]\ntasks = [\"build\"]\nfinally = [\"base\"]\n\n[tasks.base]\ncommand = [\"echo\", \"base\"]\n\n[tasks.build]\ncommand = [\"echo\", \"build\"]\ndepends_on = [\"base\"]\n",
        CacheMode::NoCache,
        TextMap::new(),
    );

    assert!(script.calls.is_empty());
    assert_eq!(summary.expect("nothing failed").blocked, 2);
}

#[test]
fn success_means_that_every_task_was_run() {
    let mut script = Script::default();
    let summary = script
        .run(CHAIN, CacheMode::NoCache, TextMap::new())
        .expect("the chain succeeds");
    assert_eq!(summary.completed + summary.cached, 2);

    let mut scheduler = Scheduler::new(planned(CHAIN), 1, CacheMode::NoCache).unwrap();
    assert!(matches!(
        scheduler.step(LoopEvent::Begin, true),
        LoopAction::Finish
    ));
    let (summary, verdict) = scheduler.verdict(true);
    assert_eq!(summary.blocked, 2);
    assert!(matches!(verdict, Err(SchedulerError::Cancelled)));
}
