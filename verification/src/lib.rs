//! Task orchestration for one project.
use vstd::prelude::*;

pub mod atomic_file;
pub mod cache;
pub mod changelog;
pub mod cli;
pub mod commands;
pub mod config;
pub mod discovery;
pub mod error;
pub mod events;
pub mod fixture;
pub mod io;
pub mod map;
pub mod messages;
pub mod output;
pub mod output_promises;
pub mod path;
pub mod platform;
pub mod project;
pub mod release;
pub mod runner;
pub mod scheduler;
pub mod stream_output;
pub mod sublist;
pub mod text;
pub mod time;
pub mod tui;
pub mod workspace;

pub use cache::CacheMode;
pub use changelog::{
    Action as ChangelogAction, Changelog, Entry as ChangelogEntry, Heading, Request, Version,
};
pub use commands::changelog::{
    notes as changelog_notes, prepare as changelog_prepare,
    prepare_from_git as changelog_prepare_from_git, prepare_on as changelog_prepare_on,
    release_notes as changelog_release_notes, scaffold as changelog_scaffold,
    scaffold_on as changelog_scaffold_on, validate as changelog_validate, ChangelogError,
    ReleaseNotesTarget, DEFAULT_NOTES_PATH as DEFAULT_RELEASE_NOTES_PATH,
    DEFAULT_PATH as DEFAULT_CHANGELOG_PATH,
};
pub use commands::ci::{
    clean_cache, graph, graph_with_output, plan, plan_with_output, run_pipeline_with_mode, CiError,
    PipelineExecution,
};
pub use commands::doctor::{doctor, DoctorError};
pub use commands::init::{init, InitError};
pub use commands::list::{list, list_with_output, ListError};
pub use commands::release::{
    manifest as release_manifest, source as release_source, verify as release_verify,
    ReleaseCommandError, DEFAULT_DIRECTORY as DEFAULT_RELEASE_DIRECTORY,
};
pub use config::{
    config_path, MonoConfig, PipelineConfig, ProjectConfig, StdinMode, TaskConfig,
    CONFIG_FILE_NAME, SUPPORTED_SCHEMA,
};
pub use error::Error;
pub use output::OutputMode;
pub use project::error::{ProjectError, TaskNode};
pub use project::planned::PlannedTask;
pub use project::Project;
pub use release::{
    create_manifest, verify_checksums, verify_manifest, verify_source, Artifact, ReleaseError,
    ReleaseIdentity, ReleaseManifest,
};
pub use runner::CancellationToken;
pub use scheduler::error::SchedulerError;

verus! {

/// Version of every JSON document the tool prints.
pub const JSON_OUTPUT_SCHEMA: u32 = 1;

} // verus!
