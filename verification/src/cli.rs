//! The command line's rules: what its values mean, where a result is written
//! and which exit code it has.

use vstd::prelude::*;
use vstd::string::StringExecFns;

use crate::cache::CacheMode;
use crate::changelog::date::is_date;
use crate::changelog::{is_valid_date, Request};
use crate::commands::changelog::{
    bad_template, changelog_fault_text, validate_pull_request_url, ChangelogError, ChangelogFault,
};
use crate::commands::ci::{CiError, CiFault};
use crate::commands::doctor::DoctorError;
use crate::commands::init::{InitError, InitFault};
use crate::commands::list::{ListError, ListFault};
use crate::commands::release::ReleaseCommandError;
use crate::error::{Error, Fault};
use crate::io::{IoError, IoErrorKind};
use crate::output::OutputMode;
use crate::path::{join_path, join_paths};
use crate::project::error::{ProjectError, ProjectFault};
use crate::release::{ReleaseError, ReleaseFault, ReleaseIdentity};
use crate::scheduler::error::{SchedulerError, SchedulerFault};
use crate::text::{find, optional_text, parse_unsigned, unsigned_value};
use crate::JSON_OUTPUT_SCHEMA;

verus! {

/// Exit code for a command that was understood and failed.
pub const EXIT_FAILED: u8 = 1;

/// Exit code for a malformed command line.
pub const EXIT_USAGE: u8 = 2;

/// Exit code for the tool or its environment failing.
pub const EXIT_TOOL: u8 = 3;

// ---------------------------------------------------------------------------
// Exit codes
// ---------------------------------------------------------------------------
/// A manifest that could not be read is a failure of the environment; one that
/// was read and rejected is for the caller to mend.
pub open spec fn project_code(fault: ProjectFault) -> u8 {
    match fault {
        ProjectFault::Io { .. } => EXIT_TOOL,
        _ => EXIT_FAILED,
    }
}

/// A directory or file that could not be written is a failure of the
/// environment.
pub open spec fn init_code(fault: InitFault) -> u8 {
    match fault {
        InitFault::AlreadyInitialized(_) => EXIT_FAILED,
        _ => EXIT_TOOL,
    }
}

/// A task that failed, or was cancelled, is a result of the pipeline; anything
/// else kept the pipeline from running.
pub open spec fn scheduler_code(fault: SchedulerFault) -> u8 {
    match fault {
        SchedulerFault::Task(_) | SchedulerFault::Cancelled => EXIT_FAILED,
        _ => EXIT_TOOL,
    }
}

/// Only what was read can be judged and refused.
pub open spec fn changelog_code(fault: ChangelogFault) -> u8 {
    match fault {
        ChangelogFault::Invalid(_) => EXIT_FAILED,
        _ => EXIT_TOOL,
    }
}

/// Only what was read can be judged and refused.
pub open spec fn release_code(fault: ReleaseFault) -> u8 {
    match fault {
        ReleaseFault::Invalid(_) => EXIT_FAILED,
        _ => EXIT_TOOL,
    }
}

/// The exit code of a failed command.
pub open spec fn code_of(fault: Fault) -> u8 {
    match fault {
        Fault::Init(fault) => init_code(fault),
        Fault::Doctor(fault) => project_code(fault),
        Fault::Ci(CiFault::InvalidJobs) => EXIT_USAGE,
        Fault::Ci(CiFault::Project(fault)) => project_code(fault),
        Fault::Ci(CiFault::Scheduler(fault)) => scheduler_code(fault),
        Fault::Ci(CiFault::Json { .. }) => EXIT_TOOL,
        Fault::List(ListFault::Project(fault)) => project_code(fault),
        Fault::List(ListFault::Json { .. }) => EXIT_TOOL,
        Fault::Changelog(fault) => changelog_code(fault),
        Fault::Release(fault) => release_code(fault),
    }
}

/// The exit code of a failed command.
pub fn exit_code(error: &Error) -> (r: u8)
    ensures
        r == code_of(error@),
{
    match error {
        Error::Init(error) => init_exit_code(error),
        Error::Ci(CiError::InvalidJobs) => EXIT_USAGE,
        Error::Ci(CiError::Scheduler(error)) => scheduler_exit_code(error),
        Error::Ci(CiError::Json { .. }) => EXIT_TOOL,
        Error::Ci(CiError::Project(error)) => project_exit_code(error),
        Error::Doctor(DoctorError::Project(error)) => project_exit_code(error),
        Error::List(ListError::Project(error)) => project_exit_code(error),
        Error::Changelog(error) => changelog_exit_code(error),
        Error::Release(ReleaseCommandError::Release(error)) => release_exit_code(error),
        Error::List(ListError::Json { .. }) => EXIT_TOOL,
    }
}

/// The exit code of a project error.
pub fn project_exit_code(error: &ProjectError) -> (r: u8)
    ensures
        r == project_code(error@),
{
    match error {
        ProjectError::Io { .. } => EXIT_TOOL,
        _ => EXIT_FAILED,
    }
}

/// The exit code of a failed `init`.
pub fn init_exit_code(error: &InitError) -> (r: u8)
    ensures
        r == init_code(error@),
{
    match error {
        InitError::CreateDir { .. } => EXIT_TOOL,
        InitError::WriteConfig { .. } => EXIT_TOOL,
        InitError::AlreadyInitialized(_) => EXIT_FAILED,
    }
}

/// The exit code of a failed run.
pub fn scheduler_exit_code(error: &SchedulerError) -> (r: u8)
    ensures
        r == scheduler_code(error@),
{
    match error {
        SchedulerError::Task(_) => EXIT_FAILED,
        SchedulerError::Cancelled => EXIT_FAILED,
        SchedulerError::Cache(_) => EXIT_TOOL,
        SchedulerError::Output(_) => EXIT_TOOL,
        SchedulerError::UnresolvedDependency { .. } => EXIT_TOOL,
        SchedulerError::NoReadyWork => EXIT_TOOL,
    }
}

/// The exit code of a failed changelog command.
pub fn changelog_exit_code(error: &ChangelogError) -> (r: u8)
    ensures
        r == changelog_code(error@),
{
    match error {
        ChangelogError::Read { .. } => EXIT_TOOL,
        ChangelogError::Write { .. } => EXIT_TOOL,
        ChangelogError::Command { .. } => EXIT_TOOL,
        ChangelogError::CommandFailed { .. } => EXIT_TOOL,
        ChangelogError::Invalid(_) => EXIT_FAILED,
    }
}

/// The exit code of a failed release command.
pub fn release_exit_code(error: &ReleaseError) -> (r: u8)
    ensures
        r == release_code(error@),
{
    match error {
        ReleaseError::Read { .. } => EXIT_TOOL,
        ReleaseError::Write { .. } => EXIT_TOOL,
        ReleaseError::Command(_) => EXIT_TOOL,
        ReleaseError::Invalid(_) => EXIT_FAILED,
    }
}

/// A failure never looks like a success, and only a number of workers that
/// cannot be honoured is a malformed command line.
pub proof fn law_failures_have_their_own_codes(fault: Fault)
    ensures
        code_of(fault) != 0,
        code_of(fault) == EXIT_USAGE <==> fault == Fault::Ci(CiFault::InvalidJobs),
        code_of(fault) == EXIT_FAILED || code_of(fault) == EXIT_USAGE || code_of(fault)
            == EXIT_TOOL,
{
}

// ---------------------------------------------------------------------------
// Values
// ---------------------------------------------------------------------------
/// What `--jobs` asks for.
pub open spec fn jobs_of(value: Seq<char>) -> Result<usize, Seq<char>> {
    match unsigned_value(value) {
        Some(n) => if n > usize::MAX {
            Err("`"@ + value + "` is not a whole number of workers"@)
        } else if n == 0 {
            Err("must be greater than zero"@)
        } else {
            Ok(n as usize)
        },
        None => Err("`"@ + value + "` is not a whole number of workers"@),
    }
}

/// Parse `--jobs`, rejecting a worker count the scheduler cannot honor.
pub fn parse_jobs(value: &str) -> (r: Result<usize, String>)
    ensures
        match r {
            Ok(jobs) => jobs_of(value@) == Ok::<usize, Seq<char>>(jobs),
            Err(message) => jobs_of(value@) == Err::<usize, Seq<char>>(message@),
        },
{
    let parsed = parse_unsigned(value);
    if let Some(n) = parsed {
        if n <= usize::MAX as u64 {
            if n == 0 {
                return Err("must be greater than zero".to_owned());
            }
            return Ok(n as usize);
        }
    }
    let mut message = "`".to_owned();
    message.append(value);
    message.append("` is not a whole number of workers");
    Err(message)
}

/// The number of workers where none was asked for: what the process may use,
/// or one where it cannot learn that.
pub fn default_jobs(available: Option<usize>) -> (r: usize)
    ensures
        r == match available {
            Some(count) => count,
            None => 1,
        },
{
    match available {
        Some(count) => count,
        None => 1,
    }
}

/// Parse a version or a release tag.
pub fn parse_version(value: &str) -> (r: Result<Request, String>)
    ensures
        match r {
            Ok(request) => crate::changelog::parse_request(value@) == Ok::<Request, Seq<char>>(
                request,
            ),
            Err(message) => crate::changelog::parse_request(value@) == Err::<Request, Seq<char>>(
                message@,
            ),
        },
{
    Request::parse(value)
}

/// Parse a release date: a real one, as `<yyyy-mm-dd>`.
pub fn parse_date(value: &str) -> (r: Result<String, String>)
    ensures
        match r {
            Ok(date) => is_date(value@) && date@ == value@,
            Err(message) => !is_date(value@) && message@ == "invalid release date `"@ + value@
                + "`, expected `<yyyy-mm-dd>`"@,
        },
{
    if is_valid_date(value) {
        return Ok(value.to_owned());
    }
    let mut message = "invalid release date `".to_owned();
    message.append(value);
    message.append("`, expected `<yyyy-mm-dd>`");
    Err(message)
}

/// Parse the template of a pull request's address, which has a place for the
/// number.
pub fn parse_pull_request_url(value: &str) -> (r: Result<String, String>)
    ensures
        match r {
            Ok(template) => find(value@, "{number}"@) is Some && template@ == value@,
            Err(message) => find(value@, "{number}"@) is None && message@ == changelog_fault_text(
                bad_template(),
            ),
        },
{
    match validate_pull_request_url(Some(value)) {
        Ok(_) => Ok(value.to_owned()),
        Err(error) => Err(error.message()),
    }
}

/// The release that a command line speaks of. A value that was not given and
/// one that is empty are the same.
#[derive(Debug, PartialEq, Eq)]
pub struct ReleaseIdentityOptions {
    pub tag: Option<String>,
    pub commit: Option<String>,
    pub repository: Option<String>,
    pub tag_object: Option<String>,
    pub workflow_run: Option<String>,
}

/// The identity that a command line gives a release.
#[derive(Debug, PartialEq, Eq)]
pub struct ResolvedIdentity {
    pub identity: ReleaseIdentity,
    /// The object of an annotated tag; a lightweight one has none.
    pub tag_object: Option<String>,
}

/// A value, unless it is empty.
pub open spec fn filled(value: Option<String>) -> Option<Seq<char>> {
    match optional_text(value) {
        Some(text) => if text.len() == 0 {
            None
        } else {
            Some(text)
        },
        None => None,
    }
}

impl ReleaseIdentityOptions {
    pub fn resolve(self) -> (r: ResolvedIdentity)
        ensures
            optional_text(r.identity.repository) == filled(self.repository),
            optional_text(r.identity.release_tag) == filled(self.tag),
            optional_text(r.identity.source_commit) == filled(self.commit),
            optional_text(r.identity.workflow_run) == filled(self.workflow_run),
            optional_text(r.tag_object) == filled(self.tag_object),
    {
        ResolvedIdentity {
            identity: ReleaseIdentity {
                repository: non_empty(self.repository),
                release_tag: non_empty(self.tag),
                source_commit: non_empty(self.commit),
                workflow_run: non_empty(self.workflow_run),
            },
            tag_object: non_empty(self.tag_object),
        }
    }
}

/// Treat a value that is set but empty as absent.
pub fn non_empty(value: Option<String>) -> (r: Option<String>)
    ensures
        optional_text(r) == filled(value),
{
    match value {
        Some(text) => {
            if text.as_str().unicode_len() == 0 {
                None
            } else {
                Some(text)
            }
        },
        None => None,
    }
}

/// How tasks are presented.
#[derive(Debug, Clone, Copy, PartialEq, Eq, Structural)]
pub enum UiFormat {
    /// Full-screen where a terminal is attached, prefixed lines otherwise.
    Auto,
    /// Full-screen, prefixed lines where no terminal is attached.
    Tui,
    /// One prefixed line at a time.
    Stream,
}

/// The presentation that was asked for: on the command, on the root, or none.
pub fn chosen_ui(command: Option<UiFormat>, root: Option<UiFormat>) -> (r: UiFormat)
    ensures
        r == match command {
            Some(ui) => ui,
            None => match root {
                Some(ui) => ui,
                None => UiFormat::Auto,
            },
        },
{
    match command {
        Some(ui) => ui,
        None => match root {
            Some(ui) => ui,
            None => UiFormat::Auto,
        },
    }
}

/// How a run is presented.
pub fn resolve_execution_output(output: OutputMode, ui: UiFormat, terminal: bool) -> (r: OutputMode)
    ensures
        r == if output == OutputMode::Json {
            OutputMode::Json
        } else if ui != UiFormat::Stream && terminal {
            OutputMode::Tui
        } else {
            OutputMode::Stream
        },
{
    if output == OutputMode::Json {
        return OutputMode::Json;
    }
    match ui {
        UiFormat::Stream => OutputMode::Stream,
        UiFormat::Tui | UiFormat::Auto => {
            if terminal {
                OutputMode::Tui
            } else {
                OutputMode::Stream
            }
        },
    }
}

/// How a run uses the cache.
pub fn cache_mode(no_cache: bool, force: bool) -> (r: CacheMode)
    requires
        !(no_cache && force),
    ensures
        r == if no_cache {
            CacheMode::NoCache
        } else if force {
            CacheMode::Force
        } else {
            CacheMode::ReadWrite
        },
{
    if no_cache {
        CacheMode::NoCache
    } else if force {
        CacheMode::Force
    } else {
        CacheMode::ReadWrite
    }
}

/// Where a path on the command line points: below the root, unless it is
/// absolute.
pub fn resolve_path(root: &str, path: &str) -> (r: String)
    ensures
        r@ == join_path(root@, path@),
{
    join_paths(root, path)
}

/// A command, as far as its need of the scheduler depends on it.
#[derive(Debug, Clone, Copy, PartialEq, Eq, Structural)]
pub enum Invocation {
    /// No command at all: the default pipeline.
    Bare,
    Run { dry_run: bool },
    Task { dry_run: bool },
    Other,
}

/// Whether a command runs tasks, and so has to be told of an interrupt.
pub fn runs_tasks(command: Invocation) -> (r: bool)
    ensures
        r == match command {
            Invocation::Bare => true,
            Invocation::Run { dry_run } => !dry_run,
            Invocation::Task { dry_run } => !dry_run,
            Invocation::Other => false,
        },
{
    match command {
        Invocation::Bare => true,
        Invocation::Run { dry_run } => !dry_run,
        Invocation::Task { dry_run } => !dry_run,
        Invocation::Other => false,
    }
}

// ---------------------------------------------------------------------------
// Results
// ---------------------------------------------------------------------------
/// What a command came to.
#[derive(Debug, PartialEq, Eq)]
pub enum CommandResult {
    Success { kind: String, message: String },
    Check { project_root: String },
    PreRendered(String),
    EventsAlreadyEmitted,
}

/// The result of a command that succeeded, as a document.
#[derive(Debug, PartialEq, Eq)]
pub struct SuccessDocument {
    pub schema: u32,
    pub kind: String,
    pub status: String,
    pub message: String,
}

/// The result of a check, as a document.
#[derive(Debug, PartialEq, Eq)]
pub struct CheckDocument {
    pub schema: u32,
    pub kind: String,
    pub status: String,
    pub project: String,
}

/// The result of a command in the form that was asked for.
#[derive(Debug, PartialEq, Eq)]
pub enum RenderedCommand {
    Summary(String),
    /// To be written as JSON.
    Success(SuccessDocument),
    /// To be written as JSON.
    Check(CheckDocument),
    EventsAlreadyEmitted,
}

/// The result of a command in the form that was asked for.
pub fn render(result: CommandResult, output: OutputMode) -> (r: RenderedCommand)
    ensures
        match result {
            CommandResult::Success { kind, message } => if output == OutputMode::Json {
                r matches RenderedCommand::Success(document) && document.schema
                    == JSON_OUTPUT_SCHEMA && document.kind == kind && document.status@ == "ok"@
                    && document.message == message
            } else {
                r == RenderedCommand::Summary(message)
            },
            CommandResult::Check { project_root } => if output == OutputMode::Json {
                r matches RenderedCommand::Check(document) && document.schema == JSON_OUTPUT_SCHEMA
                    && document.kind@ == "check"@ && document.status@ == "ok"@ && document.project
                    == project_root
            } else {
                r matches RenderedCommand::Summary(text) && text@ == "checked "@ + project_root@
            },
            CommandResult::PreRendered(summary) => r == RenderedCommand::Summary(summary),
            CommandResult::EventsAlreadyEmitted => r == RenderedCommand::EventsAlreadyEmitted,
        },
{
    match result {
        CommandResult::Success { kind, message } => if output == OutputMode::Json {
            RenderedCommand::Success(
                SuccessDocument {
                    schema: JSON_OUTPUT_SCHEMA,
                    kind,
                    status: "ok".to_owned(),
                    message,
                },
            )
        } else {
            RenderedCommand::Summary(message)
        },
        CommandResult::Check { project_root } => if output == OutputMode::Json {
            RenderedCommand::Check(
                CheckDocument {
                    schema: JSON_OUTPUT_SCHEMA,
                    kind: "check".to_owned(),
                    status: "ok".to_owned(),
                    project: project_root,
                },
            )
        } else {
            let mut text = "checked ".to_owned();
            text.append(project_root.as_str());
            RenderedCommand::Summary(text)
        },
        CommandResult::PreRendered(summary) => RenderedCommand::Summary(summary),
        CommandResult::EventsAlreadyEmitted => RenderedCommand::EventsAlreadyEmitted,
    }
}

/// What is written of a summary, where there is one. A run that reported
/// itself through events has none, which is not the same as an empty one.
pub fn summary_line(summary: &Option<String>) -> (r: Option<String>)
    ensures
        optional_text(r) == match optional_text(*summary) {
            Some(text) => Some(text + "\n"@),
            None => None,
        },
{
    match summary {
        Some(text) => {
            let mut line = text.clone();
            line.append("\n");
            Some(line)
        },
        None => None,
    }
}

/// What the attempt to write a summary leaves to be done.
#[derive(Debug, PartialEq, Eq)]
pub struct Written {
    pub code: u8,
    /// To be written among the diagnostics.
    pub diagnostic: Option<String>,
}

/// What the attempt to write a summary leaves to be done. A reader that hung up
/// lost nothing: the work is finished.
pub fn emit_summary(written: Result<(), IoError>) -> (r: Written)
    ensures
        match written {
            Ok(_) => r.code == 0 && r.diagnostic is None,
            Err(error) => if error.kind == IoErrorKind::BrokenPipe {
                r.code == 0 && r.diagnostic is None
            } else {
                r.code == EXIT_TOOL && optional_text(r.diagnostic) == Some(
                    "mono: "@ + error.message@ + "\n"@,
                )
            },
        },
{
    match written {
        Ok(_) => Written { code: 0, diagnostic: None },
        Err(error) => {
            if error.kind == IoErrorKind::BrokenPipe {
                Written { code: 0, diagnostic: None }
            } else {
                Written { code: EXIT_TOOL, diagnostic: Some(error_line(error.message.as_str())) }
            }
        },
    }
}

/// A failure, as a document.
#[derive(Debug, PartialEq, Eq)]
pub struct ErrorDocument {
    pub schema: u32,
    pub kind: String,
    pub code: u8,
    pub message: String,
}

/// Where a failure is written.
#[derive(Debug, Clone, Copy, PartialEq, Eq, Structural)]
pub enum ErrorSink {
    Stdout,
    Stderr,
}

/// The stream that a failure belongs on: the one that a machine already reads,
/// or the diagnostics for a person.
pub fn error_sink(output: OutputMode) -> (r: ErrorSink)
    ensures
        r == if output == OutputMode::Json {
            ErrorSink::Stdout
        } else {
            ErrorSink::Stderr
        },
{
    if output == OutputMode::Json {
        ErrorSink::Stdout
    } else {
        ErrorSink::Stderr
    }
}

fn error_line(message: &str) -> (r: String)
    ensures
        r@ == "mono: "@ + message@ + "\n"@,
{
    let mut line = "mono: ".to_owned();
    line.append(message);
    line.append("\n");
    line
}

/// What is written of a failure.
#[derive(Debug, PartialEq, Eq)]
pub enum Report {
    Line(String),
    /// To be written as JSON, on a line of its own.
    Document(ErrorDocument),
}

/// What is written of a failure. Whether the writing succeeds does not change
/// the exit code.
pub fn emit_error(code: u8, message: &str, output: OutputMode) -> (r: Report)
    ensures
        match r {
            Report::Line(line) => output != OutputMode::Json && line@ == "mono: "@ + message@
                + "\n"@,
            Report::Document(document) => output == OutputMode::Json && document.schema
                == JSON_OUTPUT_SCHEMA && document.kind@ == "error"@ && document.code == code
                && document.message@ == message@,
        },
{
    if output == OutputMode::Json {
        Report::Document(
            ErrorDocument {
                schema: JSON_OUTPUT_SCHEMA,
                kind: "error".to_owned(),
                code,
                message: message.to_owned(),
            },
        )
    } else {
        Report::Line(error_line(message))
    }
}

/// What a caller can mend ends with one code, what kept the program from its
/// work with another: a manifest that cannot be read is of the second kind, one
/// that breaks a rule of the first.
pub proof fn law_codes_tell_who_can_mend_a_failure(fault: Fault)
    ensures
        fault matches Fault::Ci(CiFault::Scheduler(SchedulerFault::Task(_))) ==> code_of(fault)
            == EXIT_FAILED,
        fault == Fault::Ci(CiFault::Scheduler(SchedulerFault::Cancelled)) ==> code_of(fault)
            == EXIT_FAILED,
        fault matches Fault::Ci(CiFault::Scheduler(SchedulerFault::Cache(_))) ==> code_of(fault)
            == EXIT_TOOL,
        fault matches Fault::Ci(CiFault::Scheduler(SchedulerFault::Output(_))) ==> code_of(fault)
            == EXIT_TOOL,
        fault matches Fault::Ci(CiFault::Project(problem)) ==> (code_of(fault) == EXIT_TOOL
            <==> problem is Io),
        fault matches Fault::List(ListFault::Project(problem)) ==> (code_of(fault) == EXIT_TOOL
            <==> problem is Io),
        fault matches Fault::Doctor(problem) ==> (code_of(fault) == EXIT_TOOL <==> problem is Io),
        fault matches Fault::Init(problem) ==> (code_of(fault) == EXIT_FAILED
            <==> problem is AlreadyInitialized),
        fault matches Fault::Changelog(problem) ==> (code_of(fault) == EXIT_FAILED
            <==> problem is Invalid),
        fault matches Fault::Release(problem) ==> (code_of(fault) == EXIT_FAILED
            <==> problem is Invalid),
        EXIT_FAILED != EXIT_USAGE && EXIT_USAGE != EXIT_TOOL && EXIT_TOOL != EXIT_FAILED,
{
}

/// A positive number of workers is taken as it is written; zero, and whatever is
/// no number, is refused.
pub proof fn law_a_positive_number_of_workers_is_taken(jobs: usize, value: Seq<char>)
    requires
        jobs <= u64::MAX,
    ensures
        jobs > 0 ==> jobs_of(crate::text::decimal(jobs as nat)) == Ok::<usize, Seq<char>>(jobs),
        jobs_of(crate::text::decimal(0)) is Err,
        jobs_of(value) matches Ok(n) ==> n > 0,
        (exists|i: int|
            0 <= i < value.len() && !crate::text::is_digit(#[trigger] value[i]) && value[i] != '+')
            ==> jobs_of(value) is Err,
        value.len() == 0 ==> jobs_of(value) is Err,
{
    crate::text::law_written_numbers_are_read_back(jobs as u64, value);
    crate::text::law_written_numbers_are_read_back(0, value);
    assert(0u64 as nat == 0);
}

} // verus!
