use mono::cache::CacheMode;
use mono::changelog::Request;
use mono::cli::{
    cache_mode, chosen_ui, default_jobs, emit_error, emit_summary, error_sink, exit_code,
    parse_date, parse_jobs, parse_pull_request_url, parse_version, render,
    resolve_execution_output, resolve_path, runs_tasks, summary_line, CommandResult, ErrorSink,
    Invocation, ReleaseIdentityOptions, RenderedCommand, Report, UiFormat, Written, EXIT_FAILED,
    EXIT_TOOL, EXIT_USAGE,
};
use mono::commands::changelog::ChangelogError;
use mono::commands::ci::CiError;
use mono::commands::doctor::DoctorError;
use mono::commands::init::InitError;
use mono::commands::list::ListError;
use mono::commands::release::ReleaseCommandError;
use mono::error::Error;
use mono::io::{IoError, IoErrorKind};
use mono::output::OutputMode;
use mono::project::error::ProjectError;
use mono::release::ReleaseError;
use mono::scheduler::error::SchedulerError;
use mono::JSON_OUTPUT_SCHEMA;

fn missing_root() -> ProjectError {
    ProjectError::MissingRoot {
        start: ".".to_owned(),
    }
}

fn io(kind: IoErrorKind, message: &str) -> IoError {
    IoError::new(kind, message)
}

fn missing_declared_directory() -> ProjectError {
    ProjectError::TaskDirectory {
        task: "build".to_owned(),
        path: "packages/api/missing".to_owned(),
        source: io(IoErrorKind::NotFound, "missing"),
    }
}

fn unreadable_manifest() -> ProjectError {
    ProjectError::Io {
        path: "mono.toml".to_owned(),
        source: io(IoErrorKind::PermissionDenied, "access denied"),
    }
}

#[test]
fn execution_output_mode_is_resolved_from_output_ui_and_terminal() {
    assert_eq!(
        resolve_execution_output(OutputMode::Terminal, UiFormat::Auto, true),
        OutputMode::Tui
    );
    assert_eq!(
        resolve_execution_output(OutputMode::Terminal, UiFormat::Auto, false),
        OutputMode::Stream
    );
    assert_eq!(
        resolve_execution_output(OutputMode::Terminal, UiFormat::Stream, true),
        OutputMode::Stream
    );
    assert_eq!(
        resolve_execution_output(OutputMode::Json, UiFormat::Tui, true),
        OutputMode::Json
    );
}

#[test]
fn the_choice_of_a_command_outranks_the_general_one() {
    assert_eq!(
        chosen_ui(Some(UiFormat::Stream), Some(UiFormat::Tui)),
        UiFormat::Stream
    );
    assert_eq!(chosen_ui(None, Some(UiFormat::Tui)), UiFormat::Tui);
    assert_eq!(chosen_ui(None, None), UiFormat::Auto);
}

#[test]
fn cache_flags_resolve_to_one_mode() {
    assert!(matches!(cache_mode(false, false), CacheMode::ReadWrite));
    assert!(matches!(cache_mode(true, false), CacheMode::NoCache));
    assert!(matches!(cache_mode(false, true), CacheMode::Force));
}

#[test]
fn relative_paths_are_rooted_and_absolute_paths_are_preserved() {
    assert_eq!(
        resolve_path("/workspace", "CHANGELOG.md"),
        "/workspace/CHANGELOG.md"
    );
    assert_eq!(resolve_path("/workspace", "/tmp/notes.md"), "/tmp/notes.md");
}

/// What the standard output holds once a command has been rendered.
fn written(rendered: RenderedCommand) -> Option<String> {
    match rendered {
        RenderedCommand::Summary(text) => summary_line(&Some(text)),
        _ => summary_line(&None),
    }
}

#[test]
fn a_summary_is_written_once_with_a_trailing_newline() {
    assert_eq!(
        written(RenderedCommand::Summary("summary: 1 completed".to_owned())),
        Some("summary: 1 completed\n".to_owned())
    );
    assert_eq!(
        emit_summary(Ok(())),
        Written {
            code: 0,
            diagnostic: None
        }
    );
}

#[test]
fn a_command_with_no_summary_writes_nothing_and_returns_zero() {
    assert_eq!(
        written(RenderedCommand::EventsAlreadyEmitted),
        None,
        "no summary must write nothing"
    );
    assert_eq!(
        emit_summary(Ok(())),
        Written {
            code: 0,
            diagnostic: None
        }
    );
}

#[test]
fn a_consumer_that_hangs_up_is_not_a_failure() {
    let hangup = io(IoErrorKind::BrokenPipe, "writer is unavailable");
    let outcome = emit_summary(Err(hangup));

    assert_eq!(outcome.code, 0);
    assert!(
        outcome.diagnostic.is_none(),
        "a hangup is not worth a diagnostic"
    );
}

#[test]
fn a_write_failure_that_is_not_a_hangup_is_a_tool_failure() {
    let full = io(IoErrorKind::Other, "writer is unavailable");
    let outcome = emit_summary(Err(full));

    assert_eq!(outcome.code, EXIT_TOOL);
    assert_eq!(
        outcome.diagnostic,
        Some("mono: writer is unavailable\n".to_owned())
    );
}

#[test]
fn failures_go_to_the_json_stream_for_machines_and_to_stderr_for_people() {
    assert_eq!(error_sink(OutputMode::Json), ErrorSink::Stdout);
    assert_eq!(error_sink(OutputMode::Terminal), ErrorSink::Stderr);
}

#[test]
fn a_failure_is_reported_on_the_sink_with_its_exit_code() {
    let error = Error::Ci(CiError::InvalidJobs);

    assert_eq!(exit_code(&error), EXIT_USAGE);
    assert_eq!(
        emit_error(exit_code(&error), &error.message(), OutputMode::Terminal),
        Report::Line("mono: --jobs must be greater than zero\n".to_owned())
    );
}

#[test]
fn a_broken_stderr_does_not_mask_the_failure() {
    let error = Error::Doctor(DoctorError::Project(missing_root()));

    assert_eq!(exit_code(&error), EXIT_FAILED);
}

#[test]
fn requests_that_were_understood_fail_with_one() {
    for error in [
        Error::Init(InitError::AlreadyInitialized("mono.toml".to_owned())),
        Error::Ci(CiError::Scheduler(Box::new(SchedulerError::Cancelled))),
        Error::Doctor(DoctorError::Project(missing_root())),
        Error::Doctor(DoctorError::Project(missing_declared_directory())),
        Error::List(ListError::Project(ProjectError::MissingTask {
            task: "missing".to_owned(),
            suggestion: None,
        })),
        Error::Changelog(ChangelogError::Invalid("no entries".to_owned())),
        Error::Release(ReleaseCommandError::Release(ReleaseError::Invalid(
            "checksum mismatch".to_owned(),
        ))),
    ] {
        assert_eq!(exit_code(&error), EXIT_FAILED, "{}", error.message());
    }
}

#[test]
fn environment_failures_exit_with_three() {
    for error in [
        Error::Init(InitError::WriteConfig {
            path: "mono.toml".to_owned(),
            source: io(IoErrorKind::PermissionDenied, "denied"),
        }),
        Error::Doctor(DoctorError::Project(unreadable_manifest())),
        Error::Changelog(ChangelogError::Read {
            path: "CHANGELOG.md".to_owned(),
            source: io(IoErrorKind::NotFound, "missing"),
        }),
        Error::Release(ReleaseCommandError::Release(ReleaseError::Command(
            "`git rev-parse` failed".to_owned(),
        ))),
        Error::Ci(CiError::Scheduler(Box::new(SchedulerError::NoReadyWork))),
        Error::Ci(CiError::Scheduler(Box::new(SchedulerError::Output(io(
            IoErrorKind::BrokenPipe,
            "closed",
        ))))),
    ] {
        assert_eq!(exit_code(&error), EXIT_TOOL, "{}", error.message());
    }
}

#[test]
fn zero_workers_is_a_usage_error() {
    assert_eq!(exit_code(&Error::Ci(CiError::InvalidJobs)), EXIT_USAGE);
}

#[test]
fn parse_jobs_rejects_zero_and_non_numbers() {
    assert_eq!(parse_jobs("1").unwrap(), 1);
    assert_eq!(parse_jobs("8").unwrap(), 8);
    assert!(parse_jobs("0").is_err());
    assert!(parse_jobs("many").is_err());
}

#[test]
fn one_worker_is_the_fallback() {
    assert_eq!(default_jobs(None), 1);
    assert_eq!(default_jobs(Some(8)), 8);
}

#[test]
fn value_parsers_reject_shapes_they_can_judge() {
    assert_eq!(
        parse_version("1.2.3").unwrap(),
        Request::parse("1.2.3").unwrap()
    );
    assert_eq!(parse_version("unreleased").unwrap(), Request::Unreleased);
    assert!(parse_version("banana").is_err());
    assert!(parse_version("").is_err());

    assert_eq!(parse_date("2001-02-03").unwrap(), "2001-02-03");
    assert!(parse_date("2001-02-30").is_err());
    assert!(parse_date("03/02/2001").is_err());

    assert_eq!(
        parse_pull_request_url("https://example.test/pull/{number}").unwrap(),
        "https://example.test/pull/{number}"
    );
    assert!(parse_pull_request_url("https://example.test/pull/").is_err());
}

#[test]
fn a_set_but_empty_identity_value_is_absent() {
    let resolved = ReleaseIdentityOptions {
        tag: Some("v1.2.3".to_owned()),
        commit: Some("abc123".to_owned()),
        repository: Some("acme/mono".to_owned()),
        tag_object: Some(String::new()),
        workflow_run: None,
    }
    .resolve();

    assert_eq!(resolved.identity.release_tag.as_deref(), Some("v1.2.3"));
    assert_eq!(resolved.identity.source_commit.as_deref(), Some("abc123"));
    assert_eq!(resolved.identity.repository.as_deref(), Some("acme/mono"));
    assert_eq!(resolved.tag_object, None, "a lightweight tag has no object");
    assert_eq!(resolved.identity.workflow_run, None);
}

#[test]
fn only_the_commands_that_spawn_tasks_need_a_signal_handler() {
    assert!(
        runs_tasks(Invocation::Bare),
        "bare mono runs the default pipeline"
    );
    assert!(
        runs_tasks(Invocation::Run { dry_run: false }),
        "mono run executes tasks"
    );
    assert!(
        runs_tasks(Invocation::Task { dry_run: false }),
        "mono task executes tasks"
    );
    assert!(
        !runs_tasks(Invocation::Run { dry_run: true }),
        "dry-run spawns no child process"
    );
    assert!(
        !runs_tasks(Invocation::Task { dry_run: true }),
        "dry-run task spawns no child process"
    );
    assert!(!runs_tasks(Invocation::Other));
}

#[test]
fn error_document_is_json_ready_without_writing_to_a_stream() {
    let error = Error::Ci(CiError::InvalidJobs);
    let Report::Document(document) =
        emit_error(exit_code(&error), &error.message(), OutputMode::Json)
    else {
        panic!("machines get a document")
    };

    assert_eq!(document.schema, JSON_OUTPUT_SCHEMA);
    assert_eq!(document.kind, "error");
    assert_eq!(document.code, EXIT_USAGE);
    assert!(document.message.contains("--jobs"));
}

#[test]
fn a_tool_failure_before_dispatch_is_a_document_in_json_mode() {
    let report = emit_error(
        EXIT_TOOL,
        "could not install Ctrl-C handler: denied",
        OutputMode::Json,
    );

    let Report::Document(document) = report else {
        panic!("machines get a document")
    };
    assert_eq!(document.kind, "error");
    assert_eq!(document.code, EXIT_TOOL);
}

#[test]
fn a_list_serialization_failure_is_a_tool_failure_like_the_ci_one() {
    let source = serde_json::from_str::<u32>("not json")
        .expect_err("invalid JSON")
        .to_string();

    assert_eq!(
        exit_code(&Error::List(ListError::Json {
            source: source.clone()
        })),
        EXIT_TOOL,
        "a failed serialization is a mono failure, not a rejected request"
    );
    assert_eq!(exit_code(&Error::Ci(CiError::Json { source })), EXIT_TOOL);
}

#[test]
fn renders_success_documents_without_exposing_transport_details() {
    let rendered = render(
        CommandResult::Success {
            kind: "cache_clean".to_owned(),
            message: "removed cache".to_owned(),
        },
        OutputMode::Json,
    );
    let RenderedCommand::Success(document) = rendered else {
        panic!("success must render a document")
    };
    assert_eq!(document.kind, "cache_clean");
    assert_eq!(document.status, "ok");
}

#[test]
fn a_checked_project_is_named() {
    let check = |output: OutputMode| {
        render(
            CommandResult::Check {
                project_root: "/work".to_owned(),
            },
            output,
        )
    };
    assert_eq!(
        check(OutputMode::Terminal),
        RenderedCommand::Summary("checked /work".to_owned())
    );
    let RenderedCommand::Check(document) = check(OutputMode::Json) else {
        panic!("machines get a document")
    };
    assert_eq!(document.kind, "check");
    assert_eq!(document.project, "/work");
}

#[test]
fn preserves_the_event_stream_outcome() {
    assert!(matches!(
        render(CommandResult::EventsAlreadyEmitted, OutputMode::Json),
        RenderedCommand::EventsAlreadyEmitted
    ));
}

fn builders() -> Vec<(Error, bool)> {
    vec![
        (
            Error::Init(InitError::AlreadyInitialized("mono.toml".to_owned())),
            false,
        ),
        (Error::Doctor(DoctorError::Project(missing_root())), true),
        (Error::Ci(CiError::InvalidJobs), false),
        (Error::List(ListError::Project(missing_root())), true),
        (
            Error::Changelog(ChangelogError::Invalid("bad".to_owned())),
            false,
        ),
        (
            Error::Release(ReleaseCommandError::Release(ReleaseError::Write {
                path: "out".to_owned(),
                source: io(IoErrorKind::PermissionDenied, "denied"),
            })),
            true,
        ),
    ]
}

#[test]
fn the_error_union_forwards_display_and_source() {
    for (error, has_source) in builders() {
        assert!(error.source().is_some());
        let underlying = match &error {
            Error::Init(error) => error.source(),
            Error::Doctor(error) => error.source(),
            Error::Ci(error) => error.source(),
            Error::List(error) => error.source(),
            Error::Changelog(error) => error.source(),
            Error::Release(error) => error.source(),
        };
        assert_eq!(underlying.is_some(), has_source, "{}", error.message());
        assert!(!error.message().is_empty(), "{}", error.message());
    }
}

#[test]
fn every_command_error_converts_into_the_union() {
    let _: Error = InitError::AlreadyInitialized("mono.toml".to_owned()).into();
}
