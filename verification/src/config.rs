//! The root `mono.toml` schema.

use vstd::prelude::*;
use vstd::string::StringExecFns;

use crate::map::{lookup, TextMap};
use crate::path::{join_path, join_paths};
use crate::text::{has_char, texts};

verus! {

/// Name of the configuration file at a project root.
pub const CONFIG_FILE_NAME: &'static str = "mono.toml";

/// Version of the on-disk manifest schema.
pub const SUPPORTED_SCHEMA: u32 = 1;

/// One root manifest describes one complete execution graph.
#[derive(Debug, Clone, PartialEq, Eq)]
pub struct MonoConfig {
    pub schema: u32,
    pub project: ProjectConfig,
    pub tasks: TextMap<TaskConfig>,
    pub pipelines: TextMap<PipelineConfig>,
}

/// Project identity and the default pipeline.
#[derive(Debug, Clone, PartialEq, Eq)]
pub struct ProjectConfig {
    pub name: String,
    pub default_pipeline: String,
}

/// How a task receives standard input.
#[derive(Debug, Clone, Copy, Default, PartialEq, Eq, Structural)]
pub enum StdinMode {
    #[default]
    Null,
    Inherit,
}

/// A task command and orchestration metadata. Every path is relative to the
/// project root unless the command itself receives an absolute value.
#[derive(Debug, Clone, PartialEq, Eq)]
pub struct TaskConfig {
    pub command: Vec<String>,
    pub depends_on: Vec<String>,
    pub cwd: Option<String>,
    pub env: TextMap<String>,
    pub stdin: StdinMode,
    pub cache: bool,
    pub inputs: Vec<String>,
    pub outputs: Vec<String>,
    pub cache_env: Vec<String>,
    pub timeout_seconds: u64,
    pub max_output_bytes: u64,
    pub resource_group: Option<String>,
    pub retries: u32,
    pub retry_backoff_seconds: u64,
    pub matrix: TextMap<Vec<String>>,
}

/// A named root task pipeline.
#[derive(Debug, Clone, PartialEq, Eq)]
pub struct PipelineConfig {
    pub tasks: Vec<String>,
    pub finally: Vec<String>,
}

impl StdinMode {
    /// The word for the mode in a manifest.
    pub open spec fn word(self) -> Seq<char> {
        match self {
            StdinMode::Null => "null"@,
            StdinMode::Inherit => "inherit"@,
        }
    }

    pub fn as_str(self) -> (r: &'static str)
        ensures
            r@ == self.word(),
    {
        match self {
            StdinMode::Null => "null",
            StdinMode::Inherit => "inherit",
        }
    }
}

/// The schema of a manifest that names none.
pub fn default_schema() -> (r: u32)
    ensures
        r == SUPPORTED_SCHEMA,
{
    SUPPORTED_SCHEMA
}

/// The pipeline that a manifest which names none runs by default.
pub fn default_pipeline() -> (r: String)
    ensures
        r@ == "ci"@,
{
    "ci".to_owned()
}

/// The time that a task which sets no limit may run, in seconds.
pub fn default_timeout_seconds() -> (r: u64)
    ensures
        r == 600,
{
    600
}

/// The output that a task which sets no limit may write, in bytes.
pub fn default_max_output_bytes() -> (r: u64)
    ensures
        r == 16 * 1024 * 1024,
{
    16 * 1024 * 1024
}

impl TaskConfig {
    /// Whether every field but the command and the two limits is empty.
    pub open spec fn is_plain(self) -> bool {
        &&& self.depends_on@.len() == 0
        &&& self.cwd is None
        &&& self.env@.len() == 0
        &&& self.stdin == StdinMode::Null
        &&& !self.cache
        &&& self.inputs@.len() == 0
        &&& self.outputs@.len() == 0
        &&& self.cache_env@.len() == 0
        &&& self.resource_group is None
        &&& self.retries == 0
        &&& self.retry_backoff_seconds == 0
        &&& self.matrix@.len() == 0
    }

    /// A task that runs `command` and leaves every other field at the value
    /// that a manifest which omits the field stands for.
    pub fn with_command(command: Vec<String>) -> (r: TaskConfig)
        ensures
            r.command == command,
            r.timeout_seconds == 600,
            r.max_output_bytes == 16 * 1024 * 1024,
            r.is_plain(),
    {
        TaskConfig {
            command,
            depends_on: Vec::new(),
            cwd: None,
            env: TextMap::new(),
            stdin: StdinMode::Null,
            cache: false,
            inputs: Vec::new(),
            outputs: Vec::new(),
            cache_env: Vec::new(),
            timeout_seconds: default_timeout_seconds(),
            max_output_bytes: default_max_output_bytes(),
            resource_group: None,
            retries: 0,
            retry_backoff_seconds: 0,
            matrix: TextMap::new(),
        }
    }
}

impl MonoConfig {
    /// Whether this is the template: one pipeline with one task, which asks to
    /// be configured.
    pub open spec fn is_template(self) -> bool {
        &&& self.schema == SUPPORTED_SCHEMA
        &&& self.project.name@ == "project"@
        &&& self.project.default_pipeline@ == "ci"@
        &&& self.tasks@.len() == 1
        &&& self.tasks@[0].0 == "check"@
        &&& texts(self.tasks@[0].1.command@) == seq!["echo"@, "configure this "@ + "task"@]
        &&& self.tasks@[0].1.timeout_seconds == 600
        &&& self.tasks@[0].1.max_output_bytes == 16 * 1024 * 1024
        &&& self.tasks@[0].1.is_plain()
        &&& self.pipelines@.len() == 1
        &&& self.pipelines@[0].0 == "ci"@
        &&& texts(self.pipelines@[0].1.tasks@) == seq!["check"@]
        &&& self.pipelines@[0].1.finally@.len() == 0
    }

    /// A valid root-only project template.
    pub fn template() -> (r: MonoConfig)
        ensures
            r.is_template(),
    {
        let mut command: Vec<String> = Vec::new();
        command.push("echo".to_owned());
        let mut reminder = "configure this ".to_owned();
        reminder.append("task");
        command.push(reminder);
        assert(texts(command@) =~= seq!["echo"@, "configure this "@ + "task"@]);
        let mut tasks: TextMap<TaskConfig> = TextMap::new();
        tasks.insert("check".to_owned(), TaskConfig::with_command(command));
        let mut pipeline_tasks: Vec<String> = Vec::new();
        pipeline_tasks.push("check".to_owned());
        assert(texts(pipeline_tasks@) =~= seq!["check"@]);
        let mut pipelines: TextMap<PipelineConfig> = TextMap::new();
        pipelines.insert(
            "ci".to_owned(),
            PipelineConfig { tasks: pipeline_tasks, finally: Vec::new() },
        );
        MonoConfig {
            schema: SUPPORTED_SCHEMA,
            project: ProjectConfig {
                name: "project".to_owned(),
                default_pipeline: default_pipeline(),
            },
            tasks,
            pipelines,
        }
    }
}

/// The template is complete: its default pipeline exists, and every task that a
/// pipeline names does, with a command to run.
pub proof fn law_the_template_is_complete(config: MonoConfig, p: int, t: int)
    requires
        config.is_template(),
        0 <= p < config.pipelines@.len(),
        0 <= t < config.pipelines@[p].1.tasks@.len(),
    ensures
        lookup(config.pipelines@, config.project.default_pipeline@) is Some,
        lookup(config.tasks@, config.pipelines@[p].1.tasks@[t]@) matches Some(task)
            && task.command@.len() > 0 && task.timeout_seconds == 600 && task.max_output_bytes == 16
            * 1024 * 1024,
{
    let named = config.pipelines@[p].1.tasks@;
    assert(texts(named).len() == named.len());
    assert(texts(named)[t] == named[t]@);
    let task = config.tasks@[0].1;
    assert(texts(task.command@).len() == task.command@.len());
    assert(lookup(config.tasks@, "check"@) == Some(task));
}

/// Path of the root config inside `dir`.
pub fn config_path(dir: &str) -> (r: String)
    ensures
        r@ == join_path(dir@, CONFIG_FILE_NAME@),
{
    join_paths(dir, CONFIG_FILE_NAME)
}

/// The complaint about a value that holds a NUL.
pub open spec fn process_value_problem(value: Seq<char>, field: Seq<char>) -> Option<Seq<char>> {
    if value.contains('\0') {
        Some(field + " must not contain a NUL byte"@)
    } else {
        None
    }
}

/// Return a validation message when a value cannot be passed to a child
/// process safely.
pub fn validate_process_value(value: &str, field: &str) -> (r: Result<(), String>)
    ensures
        match r {
            Ok(_) => process_value_problem(value@, field@) is None,
            Err(message) => process_value_problem(value@, field@) == Some(message@),
        },
{
    if has_char(value, '\0') {
        let mut message = field.to_owned();
        message.append(" must not contain a NUL byte");
        return Err(message);
    }
    Ok(())
}

} // verus!
