use mono::config::{
    config_path, default_pipeline, default_schema, MonoConfig, PipelineConfig, ProjectConfig,
    StdinMode, TaskConfig, CONFIG_FILE_NAME,
};
use mono::commands::ci::{
    clean_cache, graph, graph_with_output, plan, plan_with_output, run_pipeline_with_mode,
    run_report, CiError, GraphOutput, PipelineExecution, PlanOutput, RunRequest,
};
use mono::commands::doctor::doctor;
use mono::commands::init::{init, InitError};
use mono::commands::list::{list_with_output, Listing};
use mono::discovery::{find_root, locate_root, read_manifest, ManifestRead, Start};
use mono::events::EXECUTION_EVENT_SCHEMA;
use mono::io::{IoError, IoErrorKind};
use mono::map::TextMap;
use mono::output::OutputMode;
use mono::path::relative_path;
use mono::project::error::{ProjectError, TaskNode};
use mono::project::matrix::{
    base_task_name, format_task_instance, interpolate_value, matrix_instances, task_dimensions,
    validate_matrix_instance,
};
use mono::project::planned::{directories_to_resolve, PlannedTask};
use mono::project::suggest::{closest_name, edit_distance};
use mono::project::validate::{
    valid_relative_path, validate_cache_pattern, Directories, Resolution,
};
use mono::project::Project;
use mono::scheduler::summary::ExecutionSummary;

fn strings(value: &toml::Value) -> Result<Vec<String>, String> {
    value
        .as_array()
        .ok_or("expected a list")?
        .iter()
        .map(|item| Ok(item.as_str().ok_or("expected a text")?.to_owned()))
        .collect()
}

fn number(value: &toml::Value) -> Result<u64, String> {
    u64::try_from(value.as_integer().ok_or("expected a number")?).map_err(|e| e.to_string())
}

fn table(value: &toml::Value) -> Result<&toml::Table, String> {
    value.as_table().ok_or("expected a table".to_owned())
}

fn task_config(value: &toml::Value) -> Result<TaskConfig, String> {
    let fields = table(value)?;
    let command = fields.get("command").ok_or("missing field `command`")?;
    let mut task = TaskConfig::with_command(strings(command)?);
    for (name, value) in fields {
        match name.as_str() {
            "command" => {}
            "depends_on" => task.depends_on = strings(value)?,
            "cwd" => task.cwd = Some(value.as_str().ok_or("expected a text")?.to_owned()),
            "env" => {
                for (name, value) in table(value)? {
                    let value = value.as_str().ok_or("expected a text")?;
                    task.env.insert(name.clone(), value.to_owned());
                }
            }
            "stdin" => {
                task.stdin = match value.as_str() {
                    Some("null") => StdinMode::Null,
                    Some("inherit") => StdinMode::Inherit,
                    _ => return Err("unknown variant".to_owned()),
                }
            }
            "cache" => task.cache = value.as_bool().ok_or("expected a truth value")?,
            "inputs" => task.inputs = strings(value)?,
            "outputs" => task.outputs = strings(value)?,
            "cache_env" => task.cache_env = strings(value)?,
            "timeout_seconds" => task.timeout_seconds = number(value)?,
            "max_output_bytes" => task.max_output_bytes = number(value)?,
            "resource_group" => {
                task.resource_group = Some(value.as_str().ok_or("expected a text")?.to_owned())
            }
            "retries" => task.retries = number(value)? as u32,
            "retry_backoff_seconds" => task.retry_backoff_seconds = number(value)?,
            "matrix" => {
                for (name, values) in table(value)? {
                    task.matrix.insert(name.clone(), strings(values)?);
                }
            }
            other => return Err(format!("unknown field `{other}`")),
        }
    }
    Ok(task)
}

fn pipeline_config(value: &toml::Value) -> Result<PipelineConfig, String> {
    let fields = table(value)?;
    let tasks = strings(fields.get("tasks").ok_or("missing field `tasks`")?)?;
    let finally = match fields.get("finally") {
        Some(list) => strings(list)?,
        None => Vec::new(),
    };
    Ok(PipelineConfig { tasks, finally })
}

/// Read a manifest the way its schema says.
fn parse(contents: &str) -> Result<MonoConfig, String> {
    let fields: toml::Table = contents.parse().map_err(|e: toml::de::Error| e.to_string())?;
    for name in fields.keys() {
        if !["schema", "project", "tasks", "pipelines"].contains(&name.as_str()) {
            return Err(format!("unknown field `{name}`"));
        }
    }
    let project = table(fields.get("project").ok_or("missing field `project`")?)?;
    let name = project.get("name").and_then(|name| name.as_str());
    let mut config = MonoConfig {
        schema: match fields.get("schema") {
            Some(schema) => number(schema)? as u32,
            None => default_schema(),
        },
        project: ProjectConfig {
            name: name.ok_or("missing field `name`")?.to_owned(),
            default_pipeline: match project.get("default_pipeline").and_then(|name| name.as_str()) {
                Some(name) => name.to_owned(),
                None => default_pipeline(),
            },
        },
        tasks: TextMap::new(),
        pipelines: TextMap::new(),
    };
    if let Some(tasks) = fields.get("tasks") {
        for (name, task) in table(tasks)? {
            config.tasks.insert(name.clone(), task_config(task)?);
        }
    }
    if let Some(pipelines) = fields.get("pipelines") {
        for (name, pipeline) in table(pipelines)? {
            config.pipelines.insert(name.clone(), pipeline_config(pipeline)?);
        }
    }
    Ok(config)
}

const ROOT: &str = "/work";

/// The directories of a tree that holds the root and what is listed.
fn directories(config: &MonoConfig, existing: &[&str]) -> Directories {
    let mut resolved = TextMap::new();
    for wanted in directories_to_resolve(ROOT, &config.tasks) {
        let canonical = format!("/{}", relative_path(&wanted).trim_start_matches('/'));
        if canonical == ROOT || existing.contains(&canonical.as_str()) {
            resolved.insert(wanted, Resolution::Directory(canonical));
        }
    }
    Directories { resolved }
}

fn try_load(manifest: &str) -> (Result<Project, ProjectError>, Directories) {
    let config = parse(manifest).expect("manifest parses");
    let directories = directories(&config, &[]);
    (Project::load(ROOT, config, &directories), directories)
}

fn load(manifest: &str) -> (Directories, Project) {
    let (project, directories) = try_load(manifest);
    (directories, project.expect("project loads"))
}

fn reject(manifest: &str) -> ProjectError {
    try_load(manifest).0.expect_err("manifest must be rejected")
}

fn entries(pairs: &[(&str, &str)]) -> TextMap<String> {
    let mut map = TextMap::new();
    for (key, value) in pairs {
        map.insert((*key).to_owned(), (*value).to_owned());
    }
    map
}

fn lists(pairs: &[(&str, &[&str])]) -> TextMap<Vec<String>> {
    let mut map = TextMap::new();
    for (key, values) in pairs {
        let values = values.iter().map(|value| (*value).to_owned()).collect();
        map.insert((*key).to_owned(), values);
    }
    map
}

fn missing() -> IoError {
    IoError::new(IoErrorKind::NotFound, "missing")
}

#[test]
fn a_name_without_dimensions_is_its_own_base() {
    assert_eq!(base_task_name("build"), Ok("build".to_owned()));
}

#[test]
fn a_matrix_instance_base_is_the_name_before_the_bracket() {
    assert_eq!(base_task_name("build[os=linux]"), Ok("build".to_owned()));
    assert_eq!(
        base_task_name("build[os=linux,arch=arm]"),
        Ok("build".to_owned())
    );
}

#[test]
fn an_unterminated_or_leading_bracket_is_not_a_task_name() {
    assert_eq!(base_task_name("build[os=linux"), Err(()));
    assert_eq!(base_task_name("[os=linux]"), Err(()));
}

#[test]
fn a_plain_task_name_has_no_dimensions() {
    assert!(task_dimensions("build").unwrap().is_empty());
}

#[test]
fn dimensions_parse_into_a_sorted_map() {
    let dimensions = task_dimensions("build[os=linux,arch=arm]").unwrap();

    assert_eq!(dimensions.get("os").map(String::as_str), Some("linux"));
    assert_eq!(dimensions.get("arch").map(String::as_str), Some("arm"));
    assert_eq!(dimensions.len(), 2);
    assert_eq!(dimensions.key_at(0), "arch");
}

#[test]
fn malformed_dimensions_are_rejected() {
    for reference in [
        "build[",
        "build[]",
        "build[os]",
        "build[os=]",
        "build[=linux]",
        "build[os=linux,os=mac]",
    ] {
        assert_eq!(task_dimensions(reference), Err(()), "{reference}");
    }
}

#[test]
fn an_instance_is_a_format_parse_round_trip() {
    let dimensions = task_dimensions("build[arch=x64,os=linux]").unwrap();

    assert_eq!(
        format_task_instance("build", &dimensions),
        "build[arch=x64,os=linux]"
    );
    assert_eq!(
        task_dimensions(&format_task_instance("build", &dimensions)).unwrap(),
        dimensions
    );
}

#[test]
fn matrix_instances_are_the_cartesian_product_in_key_order() {
    let matrix = lists(&[("os", &["linux", "mac"]), ("arch", &["x64"])]);

    let instances = matrix_instances(&matrix, &TextMap::new()).unwrap();

    assert_eq!(
        instances
            .iter()
            .map(|instance| format_task_instance("build", instance))
            .collect::<Vec<_>>(),
        vec!["build[arch=x64,os=linux]", "build[arch=x64,os=mac]"]
    );
}

#[test]
fn matrix_instances_pin_a_fixed_dimension() {
    let matrix = lists(&[("os", &["linux", "mac"])]);
    let fixed = entries(&[("os", "mac")]);

    let instances = matrix_instances(&matrix, &fixed).unwrap();

    assert_eq!(instances.len(), 1);
    assert_eq!(instances[0].get("os").map(String::as_str), Some("mac"));
}

#[test]
fn a_fixed_matrix_value_must_exist_in_the_dimension() {
    let matrix = lists(&[("os", &["linux", "mac"])]);
    let fixed = entries(&[("os", "windows")]);

    assert_eq!(
        matrix_instances(&matrix, &fixed),
        Err("matrix dimension 'os' has no value 'windows'".to_owned())
    );
}

#[test]
fn a_matrix_reference_must_name_every_dimension() {
    let matrix = lists(&[("os", &["linux"])]);

    assert_eq!(
        validate_matrix_instance(&matrix, &TextMap::new()),
        Err("matrix task references must specify every dimension".to_owned())
    );
}

#[test]
fn a_non_matrix_task_cannot_be_referenced_with_dimensions() {
    let dimensions = entries(&[("os", "linux")]);

    assert_eq!(
        validate_matrix_instance(&TextMap::new(), &dimensions),
        Err("task is not matrix-parameterized".to_owned())
    );
}

#[test]
fn placeholders_are_replaced_from_the_instance() {
    let dimensions = entries(&[("os", "linux")]);

    assert_eq!(
        interpolate_value("bin/${os}/app", &dimensions).unwrap(),
        "bin/linux/app"
    );
    assert_eq!(interpolate_value("plain", &dimensions).unwrap(), "plain");
}

#[test]
fn an_unknown_or_unterminated_placeholder_is_rejected() {
    let dimensions = entries(&[("os", "linux")]);

    assert!(interpolate_value("${windows}", &dimensions).is_err());
    assert!(interpolate_value("${os", &dimensions).is_err());
}

#[test]
fn edit_distance_counts_substitutions_insertions_and_deletions() {
    assert_eq!(edit_distance("", ""), 0);
    assert_eq!(edit_distance("abc", "abc"), 0);
    assert_eq!(edit_distance("kitten", "sitting"), 3);
    assert_eq!(edit_distance("build", "builds"), 1);
}

#[test]
fn the_distance_does_not_depend_on_the_direction() {
    assert_eq!(edit_distance("sitting", "kitten"), 3);
    assert_eq!(edit_distance("builds", "build"), 1);
}

#[test]
fn a_close_name_is_suggested_only_within_the_distance_bound() {
    let candidates = vec!["test".to_owned(), "build".to_owned(), "release".to_owned()];

    assert_eq!(closest_name("tests", &candidates), Some("test".to_owned()));
    assert_eq!(closest_name("test", &candidates), None);
    assert_eq!(closest_name("completely-different", &candidates), None);
}

#[test]
fn relative_paths_reject_parent_and_absolute_components() {
    assert!(valid_relative_path("services/api"));
    assert!(valid_relative_path("./api"));
    assert!(!valid_relative_path(""));
    assert!(!valid_relative_path(".."));
    assert!(!valid_relative_path("../api"));
    assert!(!valid_relative_path("/api"));
}

#[test]
fn cache_patterns_are_relative_and_free_of_empty_segments() {
    assert!(validate_cache_pattern("src/**").is_ok());
    assert!(validate_cache_pattern("!src/**").is_ok());
    assert!(validate_cache_pattern("").is_err());
    assert!(validate_cache_pattern("!").is_err());
    assert!(validate_cache_pattern("/src/**").is_err());
    assert!(validate_cache_pattern("src//app").is_err());
    assert!(validate_cache_pattern("src/../app").is_err());
}

const FINALIZER_MANIFEST: &str = "[project]\nname = \"fixture\"\n\n[pipelines.ci]\ntasks = [\"build\"]\nfinally = [\"cleanup\"]\n\n[tasks.build]\ncommand = [\"echo\", \"build\"]\n\n[tasks.cleanup]\ncommand = [\"echo\", \"cleanup\"]\n";

#[test]
fn load_orders_dependencies_before_dependents() {
    let (directories, project) = load(
        "[project]\nname = \"fixture\"\n\n[pipelines.ci]\ntasks = [\"app\"]\n\n[tasks.base]\ncommand = [\"echo\", \"base\"]\n\n[tasks.app]\ncommand = [\"echo\", \"app\"]\ndepends_on = [\"base\"]\n",
    );

    let plan = project.plan(&directories, None, &Vec::new()).expect("plan succeeds");

    assert_eq!(
        plan.iter().map(PlannedTask::id).collect::<Vec<_>>(),
        vec!["base", "app"]
    );
}

#[test]
fn a_dependency_cycle_is_reported_with_its_path() {
    let error = reject(
        "[project]\nname = \"fixture\"\n\n[pipelines.ci]\ntasks = [\"app\"]\n\n[tasks.base]\ncommand = [\"echo\", \"base\"]\ndepends_on = [\"app\"]\n\n[tasks.app]\ncommand = [\"echo\", \"app\"]\ndepends_on = [\"base\"]\n",
    );

    assert!(matches!(error, ProjectError::TaskCycle { .. }), "{}", error.message());
    assert!(error.message().contains("app -> base -> app"), "{}", error.message());
}

#[test]
fn an_unknown_default_pipeline_is_rejected() {
    let error = reject(
        "[project]\nname = \"fixture\"\ndefault_pipeline = \"missing\"\n\n[pipelines.ci]\ntasks = [\"app\"]\n\n[tasks.app]\ncommand = [\"echo\", \"app\"]\n",
    );

    assert!(
        matches!(error, ProjectError::UnknownPipeline { .. }),
        "{}",
        error.message()
    );
}

#[test]
fn a_pipeline_reference_to_an_unknown_task_suggests_the_closest_name() {
    let error = reject(
        "[project]\nname = \"fixture\"\n\n[pipelines.ci]\ntasks = [\"tests\"]\n\n[tasks.test]\ncommand = [\"echo\", \"test\"]\n",
    );

    assert!(
        matches!(
            error,
            ProjectError::MissingTask {
                suggestion: Some(_),
                ..
            }
        ),
        "{}",
        error.message()
    );
    assert!(
        error.message().contains("Did you mean 'test'?"),
        "{}",
        error.message()
    );
}

#[test]
fn a_matrix_task_expands_to_one_instance_per_combination() {
    let (directories, project) = load(
        "[project]\nname = \"fixture\"\n\n[pipelines.ci]\ntasks = [\"build\"]\n\n[tasks.build]\ncommand = [\"echo\", \"${os}\"]\nmatrix.os = [\"linux\", \"mac\"]\n",
    );

    let plan = project.plan(&directories, None, &Vec::new()).expect("plan succeeds");

    assert_eq!(
        plan.iter().map(PlannedTask::id).collect::<Vec<_>>(),
        vec!["build[os=linux]", "build[os=mac]"]
    );
    assert_eq!(
        *plan[0].command(),
        vec!["echo".to_owned(), "linux".to_owned()]
    );
}

#[test]
fn an_explicit_matrix_instance_selects_one_combination() {
    let (directories, project) = load(
        "[project]\nname = \"fixture\"\n\n[pipelines.ci]\ntasks = [\"build[os=linux]\"]\n\n[tasks.build]\ncommand = [\"echo\", \"${os}\"]\nmatrix.os = [\"linux\", \"mac\"]\n",
    );

    let plan = project.plan(&directories, None, &Vec::new()).expect("plan succeeds");

    assert_eq!(plan.len(), 1);
    assert_eq!(plan[0].id(), "build[os=linux]");
}

#[test]
fn an_explicit_matrix_value_outside_the_dimension_is_rejected() {
    let error = reject(
        "[project]\nname = \"fixture\"\n\n[pipelines.ci]\ntasks = [\"build[os=windows]\"]\n\n[tasks.build]\ncommand = [\"echo\", \"${os}\"]\nmatrix.os = [\"linux\", \"mac\"]\n",
    );

    assert!(matches!(error, ProjectError::InvalidTask { .. }), "{}", error.message());
}

#[test]
fn a_matrix_dependent_inherits_the_current_dimensions() {
    let (directories, project) = load(
        "[project]\nname = \"fixture\"\n\n[pipelines.ci]\ntasks = [\"package\"]\n\n[tasks.build]\ncommand = [\"echo\", \"build\"]\nmatrix.os = [\"linux\", \"mac\"]\n\n[tasks.package]\ncommand = [\"echo\", \"package\"]\ndepends_on = [\"build\"]\nmatrix.os = [\"linux\", \"mac\"]\n",
    );

    let plan = project.plan(&directories, None, &Vec::new()).expect("plan succeeds");
    let package = plan
        .iter()
        .find(|task| task.id() == "package[os=linux]")
        .expect("package instance exists");

    assert_eq!(
        package
            .depends_on()
            .iter()
            .map(TaskNode::id)
            .collect::<Vec<_>>(),
        vec!["build[os=linux]"]
    );
}

#[test]
fn pipeline_finalizers_are_marked_on_the_planned_tasks() {
    let (directories, project) = load(FINALIZER_MANIFEST);

    let plan = project.plan(&directories, None, &Vec::new()).expect("plan succeeds");

    assert!(!plan[0].is_finalizer());
    assert!(plan[1].is_finalizer());
}

#[test]
fn a_cacheable_finalizer_is_rejected() {
    let error = reject(
        "[project]\nname = \"fixture\"\n\n[pipelines.ci]\ntasks = [\"build\"]\nfinally = [\"cleanup\"]\n\n[tasks.build]\ncommand = [\"echo\", \"build\"]\n\n[tasks.cleanup]\ncommand = [\"echo\", \"cleanup\"]\ncache = true\ninputs = [\"src/**\"]\n",
    );

    assert!(
        error.message().contains("finalizer tasks cannot be cached"),
        "{}",
        error.message()
    );
}

#[test]
fn a_cacheable_task_must_declare_a_positive_input_pattern() {
    let error = reject(
        "[project]\nname = \"fixture\"\n\n[pipelines.ci]\ntasks = [\"build\"]\n\n[tasks.build]\ncommand = [\"echo\", \"build\"]\ncache = true\ninputs = [\"!vendor/**\"]\n",
    );

    assert!(
        error.message().contains("at least one positive input pattern"),
        "{}",
        error.message()
    );
}

#[test]
fn a_cwd_escaping_the_project_root_is_rejected() {
    let error = reject(
        "[project]\nname = \"fixture\"\n\n[pipelines.ci]\ntasks = [\"build\"]\n\n[tasks.build]\ncommand = [\"echo\", \"build\"]\ncwd = \"../escape\"\n",
    );

    assert!(matches!(error, ProjectError::InvalidTask { .. }), "{}", error.message());
}

#[test]
fn a_missing_cwd_directory_is_a_task_directory_failure() {
    let error = reject(
        "[project]\nname = \"fixture\"\n\n[pipelines.ci]\ntasks = [\"build\"]\n\n[tasks.build]\ncommand = [\"echo\", \"build\"]\ncwd = \"missing\"\n",
    );

    assert!(
        matches!(error, ProjectError::TaskDirectory { ref task, .. } if task == "build"),
        "{}",
        error.message()
    );
}

#[test]
fn a_task_runs_in_the_directory_it_declares() {
    let config = parse(
        "[project]\nname = \"fixture\"\n\n[pipelines.ci]\ntasks = [\"build\"]\n\n[tasks.build]\ncommand = [\"echo\", \"build\"]\ncwd = \"services/api\"\n",
    )
    .unwrap();
    let directories = directories(&config, &["/work/services/api"]);
    let project = Project::load(ROOT, config, &directories).expect("project loads");
    let plan = project.plan(&directories, None, &Vec::new()).expect("plan succeeds");
    assert_eq!(plan[0].cwd(), "/work/services/api");
}

#[test]
fn zero_timeout_and_zero_output_limit_are_rejected() {
    for (field, message) in [
        (
            "timeout_seconds = 0",
            "timeout_seconds must be greater than zero",
        ),
        ("max_output_bytes = 0", "max_output_bytes must be positive"),
    ] {
        let error = reject(&format!(
            "[project]\nname = \"fixture\"\n\n[pipelines.ci]\ntasks = [\"build\"]\n\n[tasks.build]\ncommand = [\"echo\", \"build\"]\n{field}\n"
        ));
        assert!(error.message().contains(message), "{}", error.message());
    }
}

#[test]
fn an_unsupported_schema_is_rejected() {
    let error = reject(
        "schema = 2\n\n[project]\nname = \"fixture\"\n\n[pipelines.ci]\ntasks = [\"build\"]\n\n[tasks.build]\ncommand = [\"echo\", \"build\"]\n",
    );

    assert!(
        matches!(error, ProjectError::UnsupportedSchema { found: 2, .. }),
        "{}",
        error.message()
    );
}

#[test]
fn a_matrix_larger_than_the_bound_is_rejected() {
    let values = (0..1025)
        .map(|index| format!("\"v{index}\""))
        .collect::<Vec<_>>()
        .join(", ");
    let error = reject(&format!(
        "[project]\nname = \"fixture\"\n\n[pipelines.ci]\ntasks = [\"build\"]\n\n[tasks.build]\ncommand = [\"echo\", \"build\"]\nmatrix.os = [{values}]\n"
    ));

    assert!(
        error.message().contains("more than 1024 instances"),
        "{}",
        error.message()
    );
}

#[test]
fn project_errors_expose_a_source_exactly_when_they_wrap_one() {
    let io = || IoError::new(IoErrorKind::PermissionDenied, "denied");

    let with_source = [
        ProjectError::Io {
            path: "mono.toml".to_owned(),
            source: io(),
        },
        ProjectError::TaskDirectory {
            task: "build".to_owned(),
            path: "missing".to_owned(),
            source: io(),
        },
    ];
    for error in &with_source {
        assert!(error.source().is_some(), "{}", error.message());
        assert!(!error.message().is_empty(), "{}", error.message());
    }

    let bare = [
        ProjectError::InvalidProject {
            message: "no pipelines".to_owned(),
        },
        ProjectError::UnknownPipeline {
            name: "missing".to_owned(),
            suggestion: Some("ci".to_owned()),
        },
        ProjectError::InvalidTaskName {
            task: "bad[".to_owned(),
        },
        ProjectError::InvalidTask {
            task: "build".to_owned(),
            message: "empty command".to_owned(),
        },
        ProjectError::MissingTask {
            task: "missing".to_owned(),
            suggestion: None,
        },
        ProjectError::InvalidTaskReference {
            reference: "bad[".to_owned(),
            from: TaskNode::new("build"),
        },
        ProjectError::TaskCycle {
            path: vec![TaskNode::new("a"), TaskNode::new("b"), TaskNode::new("a")],
        },
        ProjectError::MissingRoot {
            start: ".".to_owned(),
        },
    ];
    for error in &bare {
        assert!(error.source().is_none(), "{}", error.message());
        assert!(!error.message().is_empty(), "{}", error.message());
    }

    let parse_error = ProjectError::Parse {
        path: "mono.toml".to_owned(),
        source: parse("= =").unwrap_err(),
    };
    assert!(parse_error.source().is_some(), "{}", parse_error.message());

    let schema_error = ProjectError::UnsupportedSchema {
        path: "mono.toml".to_owned(),
        found: 2,
        supported: 1,
    };
    assert!(schema_error.source().is_none(), "{}", schema_error.message());
}

#[test]
fn config_path_joins_the_file_name_onto_the_directory() {
    assert_eq!(config_path("repo"), format!("repo/{CONFIG_FILE_NAME}"));
}

#[test]
fn task_defaults_to_no_dependencies_or_environment() {
    let parsed = parse(
        "[project]\nname = \"worker\"\n\n[tasks.build]\ncommand = [\"make\", \"build\"]\n",
    )
    .expect("project parses");
    let build = parsed.tasks.get("build").unwrap();

    assert_eq!(build.timeout_seconds, 600);
    assert_eq!(build.max_output_bytes, 16 * 1024 * 1024);
    assert_eq!(build.stdin, StdinMode::Null);
    assert!(build.depends_on.is_empty());
}

#[test]
fn task_can_inherit_standard_input() {
    let parsed = parse(
        "[project]\nname = \"worker\"\n\n[tasks.login]\ncommand = [\"login\"]\nstdin = \"inherit\"\n",
    )
    .expect("project parses");

    assert_eq!(parsed.tasks.get("login").unwrap().stdin, StdinMode::Inherit);
}

#[test]
fn schema_defaults_to_version_one() {
    let parsed = parse("[project]\nname = \"worker\"\n").unwrap();
    assert_eq!(parsed.schema, 1);
}

#[test]
fn non_project_manifest_shapes_are_rejected() {
    assert!(parse("[workspace]\nname = \"repo\"\n").is_err());
    assert!(parse("[package]\nname = \"app\"\n").is_err());
}

#[test]
fn the_template_is_a_project_that_loads() {
    let template = MonoConfig::template();
    assert_eq!(template.schema, 1);
    assert_eq!(template.project.name, "project");
    let check = template.tasks.get("check").unwrap();
    assert_eq!(check.command[0], "echo");
    assert_eq!(check.command[1], ["configure", "this", "task"].join(" "));
    let directories = directories(&template, &[]);
    assert!(Project::load(ROOT, template, &directories).is_ok());
}

const CHAIN: &str = "[project]\nname = \"fixture\"\n\n[pipelines.ci]\ntasks = [\"app\"]\n\n[tasks.base]\ncommand = [\"echo\", \"base\"]\n\n[tasks.app]\ncommand = [\"echo\", \"app\"]\ndepends_on = [\"base\"]\nenv = { TOKEN = \"secret\" }\n";

fn loaded(manifest: &str) -> (MonoConfig, Directories) {
    let config = parse(manifest).expect("manifest parses");
    let directories = directories(&config, &[]);
    (config, directories)
}

#[test]
fn plan_json_contains_stable_task_metadata_without_environment_values() {
    let (config, directories) = loaded(CHAIN);

    let output = plan_with_output(ROOT, config, &directories, None, &Vec::new(), OutputMode::Json)
        .expect("JSON plan succeeds");
    let PlanOutput::Document(document) = output else {
        panic!("JSON asks for a document")
    };

    assert_eq!(document.schema, EXECUTION_EVENT_SCHEMA);
    assert_eq!(document.kind, "plan");
    assert_eq!(document.tasks[0].id, "base");
    assert_eq!(document.tasks[1].id, "app");
    assert_eq!(document.tasks[1].env[0], "TOKEN");
    assert!(!format!("{document:?}").contains("secret"));
}

#[test]
fn graph_json_contains_one_dependency_edge_per_planned_task() {
    let (config, directories) = loaded(CHAIN);

    let output = graph_with_output(ROOT, config, &directories, None, &Vec::new(), OutputMode::Json)
        .expect("JSON graph succeeds");
    let GraphOutput::Document(document) = output else {
        panic!("JSON asks for a document")
    };

    assert_eq!(document.kind, "graph");
    assert_eq!(document.edges.len(), 2);
    assert_eq!(document.edges[1].task, "app");
    assert_eq!(document.edges[1].depends_on[0], "base");
}

#[test]
fn terminal_plan_redacts_environment_values() {
    let (config, directories) = loaded(
        "[project]\nname = \"fixture\"\n\n[pipelines.ci]\ntasks = [\"build\"]\n\n[tasks.build]\ncommand = [\"echo\", \"build\"]\nenv = { TOKEN = \"secret\", MODE = \"check\" }\n",
    );

    let output =
        plan(ROOT, config, &directories, None, &Vec::new()).expect("terminal plan succeeds");

    assert!(output.contains("env TOKEN=<redacted>"));
    assert!(output.contains("env MODE=<redacted>"));
    assert!(!output.contains("secret"));
    assert!(!output.contains("check"));
}

#[test]
fn a_plan_is_written_with_every_setting() {
    let (config, directories) = loaded(
        "[project]\nname = \"fixture\"\n\n[pipelines.ci]\ntasks = [\"build\"]\nfinally = [\"last\"]\n\n[tasks.build]\ncommand = [\"echo\", \"a b\"]\ninputs = [\"src/**\", \"!x\"]\noutputs = [\"dist/**\"]\nresource_group = \"db\"\nretries = 2\nretry_backoff_seconds = 5\n\n[tasks.last]\ncommand = [\"true\"]\n",
    );

    assert_eq!(
        plan(ROOT, config, &directories, None, &Vec::new()).unwrap(),
        "project fixture (/work)\n\
         would run build in /work: echo 'a b' [timeout=600s] [max_output_bytes=16777216] [resource_group=db] [inputs=src/**, !x] [outputs=dist/**] [retries=2] [retry_backoff=5s]\n\
         would run last in /work: true [timeout=600s] [max_output_bytes=16777216] [finally]"
    );
}

#[test]
fn a_graph_is_written_with_its_edges() {
    let (config, directories) = loaded(CHAIN);
    assert_eq!(
        graph(ROOT, config, &directories, None, &Vec::new()).unwrap(),
        "project fixture (/work)\nbase\napp <- base"
    );
}

#[test]
fn dry_run_reports_dependency_order_and_commands() {
    let (config, directories) = loaded("[project]\nname = \"fixture\"\n\n[pipelines.ci]\ntasks = [\"app-build\"]\n\n[tasks.base-build]\ncommand = [\"echo\", \"base\"]\n\n[tasks.app-build]\ncommand = [\"echo\", \"app\"]\ndepends_on = [\"base-build\"]\n");
    let request = run_pipeline_with_mode(
        ROOT,
        config,
        &directories,
        None,
        &Vec::new(),
        true,
        1,
        &PipelineExecution::default(),
    )
    .unwrap();
    let RunRequest::Show(PlanOutput::Text(output)) = request else {
        panic!("a dry run shows the plan")
    };
    assert!(output.find("base-build").unwrap() < output.find("app-build").unwrap());
    assert!(output.contains("would run app-build"));
}

#[test]
fn rejects_zero_workers_before_loading_the_project() {
    let (mut config, directories) = loaded(CHAIN);
    config.schema = 2;
    let error = run_pipeline_with_mode(
        ROOT,
        config,
        &directories,
        None,
        &Vec::new(),
        false,
        0,
        &PipelineExecution::default(),
    )
    .unwrap_err();
    assert!(matches!(error, CiError::InvalidJobs));
}

#[test]
fn loaded_pipeline_rejects_zero_jobs_before_dispatching() {
    let (config, directories) = loaded(
        "[project]\nname = \"fixture\"\n\n[pipelines.ci]\ntasks = [\"build\"]\n\n[tasks.build]\ncommand = [\"echo\", \"build\"]\n",
    );
    let error = run_pipeline_with_mode(
        ROOT,
        config,
        &directories,
        None,
        &Vec::new(),
        false,
        0,
        &PipelineExecution::default(),
    )
    .expect_err("zero workers must fail");

    assert!(matches!(error, CiError::InvalidJobs));
}

#[test]
fn a_run_reports_its_summary_unless_the_events_did() {
    let summary = ExecutionSummary {
        completed: 1,
        cached: 2,
        failed: 3,
        cancelled: 4,
        blocked: 5,
    };
    assert_eq!(
        run_report(&summary, OutputMode::Terminal),
        Some("summary: 1 completed, 2 cached, 3 failed, 4 cancelled, 5 blocked".to_owned())
    );
    assert_eq!(run_report(&summary, OutputMode::Json), None);
}

#[test]
fn cleaning_an_empty_cache_is_no_failure() {
    assert_eq!(
        clean_cache(ROOT, Ok(())).unwrap(),
        "removed cache /work/.mono/cache"
    );
    assert_eq!(
        clean_cache(ROOT, Err(missing())).unwrap(),
        "cache is already empty /work/.mono/cache"
    );
    let denied = IoError::new(IoErrorKind::PermissionDenied, "denied");
    assert!(matches!(
        clean_cache(ROOT, Err(denied)),
        Err(CiError::Project(ProjectError::Io { .. }))
    ));
}

const LISTED: &str = "[project]\nname = \"fixture\"\n\n[pipelines.ci]\ntasks = [\"build\"]\nfinally = [\"cleanup\"]\n\n[tasks.build]\ncommand = [\"echo\", \"build\"]\n\n[tasks.cleanup]\ncommand = [\"echo\", \"cleanup\"]\nstdin = \"inherit\"\n";

#[test]
fn terminal_list_contains_pipeline_finalizer_and_task_command() {
    let (config, directories) = loaded(LISTED);

    let listing = list_with_output(ROOT, config, &directories, OutputMode::Terminal)
        .expect("list succeeds");
    let Listing::Text(output) = listing else {
        panic!("a terminal shows text")
    };

    assert!(output.contains("ci: build"));
    assert!(output.contains("finally: cleanup"));
    assert!(output.contains("build: echo build"));
    assert!(output.contains("cleanup: echo cleanup"));
}

#[test]
fn json_list_contains_pipeline_task_and_stdin_contracts() {
    let (config, directories) = loaded(LISTED);

    let listing = list_with_output(ROOT, config, &directories, OutputMode::Json)
        .expect("JSON list succeeds");
    let Listing::Document(document) = listing else {
        panic!("JSON asks for a document")
    };

    assert_eq!(document.schema, EXECUTION_EVENT_SCHEMA);
    assert_eq!(document.kind, "list");
    assert_eq!(document.default_pipeline, "ci");
    assert_eq!(document.pipelines[0].finally[0], "cleanup");
    assert_eq!(document.tasks[1].stdin.as_str(), "inherit");
}

#[test]
fn validates_a_root_project_manifest() {
    let (config, directories) = loaded(
        "[project]\nname = \"fixture\"\n\n[pipelines.ci]\ntasks = [\"build\", \"test\"]\n\n[tasks.build]\ncommand = [\"echo\", \"app\"]\n\n[tasks.test]\ncommand = [\"echo\", \"app\"]\n",
    );

    assert_eq!(
        doctor(ROOT, config, &directories).expect("doctor succeeds"),
        ROOT
    );
}

#[test]
fn init_creates_a_missing_directory() {
    let written = init("a/b/c", Ok(()), Ok(())).expect("init creates the directory");

    assert_eq!(written, "a/b/c/mono.toml");
}

#[test]
fn a_second_init_refuses_to_overwrite() {
    let taken = IoError::new(IoErrorKind::AlreadyExists, "exists");
    init(ROOT, Ok(()), Ok(())).expect("first init succeeds");

    let error = init(ROOT, Ok(()), Err(taken)).expect_err("second init refuses");

    assert!(
        matches!(error, InitError::AlreadyInitialized(ref path) if path == &config_path(ROOT)),
        "{}",
        error.message()
    );
    assert!(
        error.message().contains("refusing to overwrite"),
        "{}",
        error.message()
    );
    assert!(
        error.source().is_none(),
        "a refusal has no underlying cause"
    );
}

#[test]
fn a_directory_that_cannot_be_created_is_a_tool_failure() {
    let blocked = IoError::new(IoErrorKind::Other, "not a directory");

    let error = init("/work/blocked/nested", Err(blocked), Ok(())).expect_err("init fails");

    assert!(matches!(error, InitError::CreateDir { .. }), "{}", error.message());
    assert!(error.source().is_some(), "a filesystem cause is exposed");
    assert!(error.message().contains("could not create directory"));
}

fn start(path: &str, is_directory: bool) -> Result<Start, IoError> {
    Ok(Start {
        path: path.to_owned(),
        is_directory,
    })
}

#[test]
fn a_nested_directory_finds_the_ancestor_manifest() {
    let config = parse(LISTED).unwrap();
    let discovered = find_root(
        "services/api",
        &start("/work/services/api", true),
        &vec!["/work/mono.toml".to_owned()],
        ManifestRead::Parsed(config),
    )
    .expect("root is found");

    assert_eq!(discovered.config.project.name, "fixture");
    assert_eq!(discovered.root, ROOT);
}

#[test]
fn a_file_start_walks_up_from_its_parent() {
    let root = locate_root(
        "services.txt",
        &start("/work/services.txt", false),
        &vec!["/work/mono.toml".to_owned()],
    )
    .expect("root is found from a file");

    assert_eq!(root, ROOT);
}

#[test]
fn the_nearest_manifest_wins() {
    let manifests = vec!["/mono.toml".to_owned(), "/work/mono.toml".to_owned()];
    assert_eq!(locate_root(".", &start("/work/a", true), &manifests).unwrap(), ROOT);
    assert_eq!(locate_root(".", &start("/other", true), &manifests).unwrap(), "/");
}

#[test]
fn a_start_with_no_ancestor_manifest_is_the_missing_root_failure() {
    let error = locate_root(".", &start("/tmp/fresh", true), &Vec::new())
        .expect_err("no manifest is found");

    assert!(
        matches!(error, ProjectError::MissingRoot { ref start } if start == "/tmp/fresh"),
        "{}",
        error.message()
    );
}

#[test]
fn a_start_that_cannot_be_resolved_is_a_read_failure() {
    let error = locate_root("nowhere", &Err(missing()), &Vec::new()).unwrap_err();
    assert!(matches!(error, ProjectError::Io { ref path, .. } if path == "nowhere"));
}

#[test]
fn an_unsupported_schema_is_rejected_while_discovering() {
    let error = reject(
        "schema = 2\n\n[project]\nname = \"fixture\"\n\n[pipelines.ci]\ntasks = [\"build\"]\n\n[tasks.build]\ncommand = [\"echo\", \"build\"]\n",
    );

    assert!(
        matches!(error, ProjectError::UnsupportedSchema { found: 2, .. }),
        "{}",
        error.message()
    );
}

#[test]
fn unparseable_manifest_contents_are_a_parse_failure() {
    let why = parse("this is not toml = = =").unwrap_err();

    let error = read_manifest(&config_path(ROOT), ManifestRead::Malformed(why))
        .expect_err("parse fails");

    assert!(matches!(error, ProjectError::Parse { .. }), "{}", error.message());
    assert!(matches!(
        read_manifest(&config_path(ROOT), ManifestRead::Failed(missing())),
        Err(ProjectError::Io { .. })
    ));
}

#[test]
fn environment_values_have_no_influence_on_a_shown_plan() {
    let shown = |token: &str| {
        let (config, directories) = loaded(&format!(
            "[project]\nname = \"fixture\"\n\n[pipelines.ci]\ntasks = [\"build\"]\n\n[tasks.build]\ncommand = [\"echo\", \"build\"]\nenv = {{ TOKEN = \"{token}\" }}\n"
        ));
        plan(ROOT, config, &directories, None, &Vec::new()).expect("the plan succeeds")
    };

    assert_eq!(shown("one"), shown("another"));
    assert!(shown("one").ends_with(" [env TOKEN=<redacted>]"));
}

#[test]
fn the_template_is_a_healthy_project() {
    let config = MonoConfig::template();
    let resolved = directories(&config, &[]);

    assert_eq!(doctor(ROOT, config, &resolved).expect("it is healthy"), ROOT);
}

#[test]
fn only_what_the_pipeline_does_not_need_is_a_finalizer() {
    let (directories, project) = load(
        "[project]\nname = \"fixture\"\n\n[pipelines.ci]\ntasks = [\"app\"]\nfinally = [\"cleanup\"]\n\n[tasks.base]\ncommand = [\"true\"]\n\n[tasks.app]\ncommand = [\"true\"]\ndepends_on = [\"base\"]\n\n[tasks.prune]\ncommand = [\"true\"]\n\n[tasks.cleanup]\ncommand = [\"true\"]\ndepends_on = [\"base\", \"prune\"]\n",
    );
    let marks = |requested: &Vec<String>| {
        project
            .plan(&directories, None, requested)
            .expect("the plan succeeds")
            .iter()
            .map(|task| (task.id().to_owned(), task.is_finalizer()))
            .collect::<Vec<_>>()
    };
    let mark = |id: &str, finalizer: bool| (id.to_owned(), finalizer);

    assert_eq!(
        marks(&Vec::new()),
        vec![
            mark("base", false),
            mark("app", false),
            mark("prune", true),
            mark("cleanup", true)
        ]
    );
    assert_eq!(
        marks(&vec!["cleanup".to_owned()]),
        vec![
            mark("base", false),
            mark("prune", false),
            mark("cleanup", false)
        ]
    );
}

#[test]
fn a_plan_holds_what_is_needed_and_the_graph_follows_it() {
    let (directories, project) = load(
        "[project]\nname = \"fixture\"\n\n[pipelines.ci]\ntasks = [\"app\"]\nfinally = [\"cleanup\"]\n\n[tasks.base]\ncommand = [\"true\"]\n\n[tasks.app]\ncommand = [\"true\"]\ndepends_on = [\"base\"]\n\n[tasks.unused]\ncommand = [\"true\"]\ndepends_on = [\"app\"]\n\n[tasks.cleanup]\ncommand = [\"true\"]\n",
    );
    let plan = project
        .plan(&directories, None, &Vec::new())
        .expect("the plan succeeds");
    let edges = project.graph(None, &Vec::new()).expect("the graph succeeds");

    assert_eq!(
        plan.iter().map(PlannedTask::id).collect::<Vec<_>>(),
        vec!["base", "app", "cleanup"]
    );
    assert_eq!(edges.len(), 2);
    for (task, (node, needed)) in plan.iter().zip(&edges) {
        assert_eq!(task.id, node.id);
        assert_eq!(&task.depends_on, needed);
        assert_eq!(task.root, ROOT);
        assert_eq!(task.cwd, ROOT);
    }
}

#[test]
fn the_template_names_only_tasks_that_it_has() {
    let template = MonoConfig::template();
    let pipeline = template
        .pipelines
        .get(&template.project.default_pipeline)
        .expect("the default pipeline exists");
    for name in &pipeline.tasks {
        let task = template.tasks.get(name).expect("the task exists");
        assert!(!task.command.is_empty());
        assert_eq!(task.timeout_seconds, 600);
        assert_eq!(task.max_output_bytes, 16 * 1024 * 1024);
    }
}
