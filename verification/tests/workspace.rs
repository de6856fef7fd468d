use mono::config::{config_path, PipelineConfig, StdinMode, TaskConfig};
use mono::map::TextMap;
use mono::path::relative_path;
use mono::project::validate::{Directories, Resolution};
use mono::time::Duration;
use mono::workspace::error::{TaskNode, WorkspaceError};
use mono::workspace::load::{Member, MonorepoConfig, PackageConfig, WorkspaceConfig};
use mono::workspace::planned::PlannedTask;
use mono::workspace::root::{choose_root, FoundManifest};
use mono::workspace::{Workspace, WORKSPACE_PACKAGE_NAME};

fn strings(value: &toml::Value) -> Result<Vec<String>, String> {
    value
        .as_array()
        .ok_or("expected a list")?
        .iter()
        .map(|item| Ok(item.as_str().ok_or("expected a text")?.to_owned()))
        .collect()
}

fn number(value: &toml::Value) -> Result<u64, String> {
    u64::try_from(value.as_integer().ok_or("expected a number")?).map_err(|e| e.to_string())
}

fn table(value: &toml::Value) -> Result<&toml::Table, String> {
    value.as_table().ok_or("expected a table".to_owned())
}

fn task_config(value: &toml::Value) -> Result<TaskConfig, String> {
    let fields = table(value)?;
    let command = fields.get("command").ok_or("missing field `command`")?;
    let mut task = TaskConfig::with_command(strings(command)?);
    for (name, value) in fields {
        match name.as_str() {
            "command" => {}
            "depends_on" => task.depends_on = strings(value)?,
            "cwd" => task.cwd = Some(value.as_str().ok_or("expected a text")?.to_owned()),
            "env" => {
                for (name, value) in table(value)? {
                    let value = value.as_str().ok_or("expected a text")?;
                    task.env.insert(name.clone(), value.to_owned());
                }
            }
            "stdin" => {
                task.stdin = match value.as_str() {
                    Some("null") => StdinMode::Null,
                    Some("inherit") => StdinMode::Inherit,
                    _ => return Err("unknown variant".to_owned()),
                }
            }
            "cache" => task.cache = value.as_bool().ok_or("expected a truth value")?,
            "inputs" => task.inputs = strings(value)?,
            "outputs" => task.outputs = strings(value)?,
            "cache_env" => task.cache_env = strings(value)?,
            "timeout_seconds" => task.timeout_seconds = number(value)?,
            "max_output_bytes" => task.max_output_bytes = number(value)?,
            "resource_group" => {
                task.resource_group = Some(value.as_str().ok_or("expected a text")?.to_owned())
            }
            "retries" => task.retries = number(value)? as u32,
            "retry_backoff_seconds" => task.retry_backoff_seconds = number(value)?,
            "matrix" => {
                for (name, values) in table(value)? {
                    task.matrix.insert(name.clone(), strings(values)?);
                }
            }
            other => return Err(format!("unknown field `{other}`")),
        }
    }
    Ok(task)
}

fn pipeline_config(value: &toml::Value) -> Result<PipelineConfig, String> {
    let fields = table(value)?;
    let tasks = strings(fields.get("tasks").ok_or("missing field `tasks`")?)?;
    let finally = match fields.get("finally") {
        Some(list) => strings(list)?,
        None => Vec::new(),
    };
    Ok(PipelineConfig { tasks, finally })
}

/// Read a manifest the way its schema says.
fn parse(contents: &str) -> Result<MonorepoConfig, String> {
    let fields: toml::Table = contents.parse().map_err(|e: toml::de::Error| e.to_string())?;
    let text = |value: &toml::Value| value.as_str().unwrap_or_default().to_owned();
    let mut config = MonorepoConfig {
        workspace: None,
        package: None,
        tasks: TextMap::new(),
        pipelines: TextMap::new(),
    };
    for (section, value) in &fields {
        match section.as_str() {
            "workspace" => {
                let fields = table(value)?;
                config.workspace = Some(WorkspaceConfig {
                    name: text(fields.get("name").ok_or("missing field `name`")?),
                    members: match fields.get("members") {
                        Some(members) => strings(members)?,
                        None => Vec::new(),
                    },
                    default_pipeline: match fields.get("default_pipeline") {
                        Some(name) => text(name),
                        None => "ci".to_owned(),
                    },
                });
            }
            "package" => {
                let name = table(value)?.get("name").ok_or("missing field `name`")?;
                config.package = Some(PackageConfig { name: text(name) });
            }
            "tasks" => {
                for (name, task) in table(value)? {
                    config.tasks.insert(name.clone(), task_config(task)?);
                }
            }
            "pipelines" => {
                for (name, pipeline) in table(value)? {
                    config.pipelines.insert(name.clone(), pipeline_config(pipeline)?);
                }
            }
            other => return Err(format!("unknown field `{other}`")),
        }
    }
    Ok(config)
}

const ROOT: &str = "/work";

/// The manifests of a tree, by directory, and the directories without any.
#[derive(Default)]
struct Tree {
    manifests: Vec<(String, String)>,
    directories: Vec<String>,
}

impl Tree {
    fn with(root_manifest: &str) -> Self {
        let mut tree = Self::default();
        tree.write(ROOT, root_manifest);
        tree
    }

    fn write(&mut self, directory: &str, manifest: &str) {
        self.manifests
            .push((directory.to_owned(), manifest.to_owned()));
        self.manifests.sort();
    }

    fn package(&mut self, name: &str, manifest: &str) {
        self.write(&format!("{ROOT}/packages/{name}"), manifest);
    }

    fn directories(&self) -> Directories {
        let mut resolved = TextMap::new();
        for (directory, manifest) in &self.manifests {
            let tasks = parse(manifest).expect("manifest parses").tasks;
            for i in 0..tasks.len() {
                let cwd = tasks.value_at(i).cwd.clone().unwrap_or(".".to_owned());
                let wanted = format!("{directory}/{cwd}");
                let canonical = format!("/{}", relative_path(&wanted).trim_start_matches('/'));
                let exists = self.directories.contains(&canonical)
                    || self.manifests.iter().any(|(known, _)| *known == canonical);
                if exists {
                    resolved.insert(wanted, Resolution::Directory(canonical));
                }
            }
        }
        Directories { resolved }
    }

    fn members(&self) -> Vec<Result<Member, WorkspaceError>> {
        self.manifests
            .iter()
            .filter(|(directory, _)| directory != ROOT)
            .map(|(directory, manifest)| {
                Ok(Member {
                    path: directory.clone(),
                    canonical: Ok(directory.clone()),
                    manifest: Some(Ok(parse(manifest).expect("manifest parses"))),
                })
            })
            .collect()
    }

    fn load_from(&self, start: &str) -> Result<Workspace, WorkspaceError> {
        let mut found: Vec<FoundManifest> = self
            .manifests
            .iter()
            .filter(|(directory, _)| start == directory || start.starts_with(&format!("{directory}/")))
            .map(|(directory, manifest)| FoundManifest {
                directory: directory.clone(),
                config: parse(manifest).expect("manifest parses"),
            })
            .collect();
        found.sort_by_key(|manifest| std::cmp::Reverse(manifest.directory.len()));
        let (place, kind) = choose_root(start, &found)?;
        let root = found.swap_remove(place);
        Workspace::load(
            &root.directory,
            kind,
            root.config,
            self.members(),
            &self.directories(),
        )
    }

    fn load(&self) -> Result<Workspace, WorkspaceError> {
        self.load_from(ROOT)
    }

    fn plan(&self, selected: Option<&str>, tasks: &[&str]) -> Result<Vec<PlannedTask>, WorkspaceError> {
        let tasks = tasks.iter().map(|task| (*task).to_owned()).collect();
        self.load()?
            .plan(&self.directories(), selected, None, &tasks)
    }

    fn plan_nodes(&self) -> Vec<TaskNode> {
        let plan = self.plan(None, &[]).expect("plan succeeds");
        plan.iter().map(|task| task.node()).collect()
    }
}

const MEMBERS: &str = "[workspace]\nname = \"test\"\nmembers = [\"packages/*\"]\ndefault_pipeline = \"ci\"\n\n[pipelines.ci]\ntasks = [\"build\"]\n";

const STANDALONE: &str = "[package]\nname = \"app\"\n\n[pipelines.ci]\ntasks = [\"build\", \"test\"]\n\n[tasks.build]\ncommand = [\"echo\", \"build\"]\n\n[tasks.test]\ncommand = [\"echo\", \"test\"]\ndepends_on = [\"build\"]\n";

fn app(task: &str) -> Tree {
    let mut tree = Tree::with(MEMBERS);
    tree.package("app", &format!("[package]\nname = \"app\"\n\n{task}"));
    tree
}

#[test]
fn loads_a_standalone_project_as_one_package() {
    let tree = Tree::with(STANDALONE);

    let scope = tree
        .load_from("/work/src")
        .expect("standalone project loads");

    assert_eq!(scope.name, "app");
    assert_eq!(scope.packages.len(), 1);
    assert_eq!(scope.packages.get("app").unwrap().path, ROOT);
    assert!(scope.workspace_tasks.is_empty());
}

#[test]
fn workspace_root_wins_when_loaded_from_a_package_directory() {
    let tree = app("[tasks.build]\ncommand = [\"echo\", \"build\"]\n");

    let scope = tree
        .load_from("/work/packages/app/src")
        .expect("workspace root is discovered from a package directory");

    assert_eq!(scope.name, "test");
    assert_eq!(scope.packages.len(), 1);
    assert_eq!(
        scope.packages.get("app").unwrap().path,
        "/work/packages/app"
    );
}

#[test]
fn plans_standalone_tasks_as_package_tasks_in_dependency_order() {
    let tree = Tree::with(STANDALONE);

    let plan = tree.plan(None, &[]).expect("standalone plan succeeds");

    assert_eq!(
        plan.iter().map(|task| task.node()).collect::<Vec<_>>(),
        vec![TaskNode::new("app", "build"), TaskNode::new("app", "test")]
    );
    assert!(plan.iter().all(|task| task.package() == "app"));
}

#[test]
fn rejects_a_manifest_that_declares_both_root_modes() {
    let tree = Tree::with("[workspace]\nname = \"repo\"\n\n[package]\nname = \"app\"\n");

    let error = tree.load().expect_err("ambiguous root must fail");

    assert!(error.message().contains("both [workspace] and [package]"));
}

#[test]
fn a_place_without_any_manifest_has_no_root() {
    assert!(matches!(
        choose_root("/elsewhere", &Vec::new()),
        Err(WorkspaceError::MissingRoot { start }) if start == "/elsewhere"
    ));
}

#[test]
fn discovers_members_and_orders_cross_package_tasks() {
    let mut tree = Tree::with(MEMBERS);
    tree.package(
        "base",
        "[package]\nname = \"base\"\n\n[tasks.build]\ncommand = [\"echo\", \"base\"]\n",
    );
    tree.package(
        "app",
        "[package]\nname = \"app\"\n\n[tasks.build]\ncommand = [\"echo\", \"app\"]\ndepends_on = [\"base:build\"]\n",
    );

    assert_eq!(
        tree.plan_nodes(),
        vec![TaskNode::new("base", "build"), TaskNode::new("app", "build")]
    );
}

#[test]
fn plans_workspace_tasks_once_after_package_dependencies() {
    let mut tree = Tree::with(
        "[workspace]\nname = \"test\"\nmembers = [\"packages/*\"]\ndefault_pipeline = \"release\"\n\n[pipelines.release]\ntasks = [\"workspace:release-verify\"]\n\n[tasks.release-verify]\ncommand = [\"echo\", \"release\"]\ndepends_on = [\"app:package\"]\n",
    );
    tree.package(
        "app",
        "[package]\nname = \"app\"\n\n[tasks.package]\ncommand = [\"echo\", \"package\"]\n",
    );

    let plan = tree.plan(None, &[]).expect("plan succeeds");

    assert_eq!(
        plan.iter().map(|task| task.node()).collect::<Vec<_>>(),
        vec![
            TaskNode::new("app", "package"),
            TaskNode::new(WORKSPACE_PACKAGE_NAME, "release-verify"),
        ]
    );
    assert_eq!(plan[1].cwd(), ROOT);
}

#[test]
fn workspace_task_dependencies_are_local_by_default() {
    let tree = Tree::with(
        "[workspace]\nname = \"test\"\nmembers = []\n\n[pipelines.ci]\ntasks = [\"workspace:release-verify\"]\n\n[tasks.generate]\ncommand = [\"echo\", \"generate\"]\n\n[tasks.release-verify]\ncommand = [\"echo\", \"release\"]\ndepends_on = [\"generate\"]\n",
    );

    assert_eq!(
        tree.plan_nodes(),
        vec![
            TaskNode::new(WORKSPACE_PACKAGE_NAME, "generate"),
            TaskNode::new(WORKSPACE_PACKAGE_NAME, "release-verify"),
        ]
    );
}

#[test]
fn rejects_a_package_named_workspace() {
    let mut tree = Tree::with(MEMBERS);
    tree.package(
        "reserved",
        "[package]\nname = \"workspace\"\n\n[tasks.build]\ncommand = [\"echo\", \"build\"]\n",
    );

    let error = tree.load().expect_err("workspace namespace must be reserved");
    assert!(error.message().contains("reserved for workspace tasks"));
}

#[test]
fn selecting_a_package_includes_task_dependencies_only() {
    let mut tree = Tree::with(MEMBERS);
    tree.package(
        "shared",
        "[package]\nname = \"shared\"\n\n[tasks.build]\ncommand = [\"echo\", \"shared\"]\n",
    );
    tree.package(
        "app",
        "[package]\nname = \"app\"\n\n[tasks.build]\ncommand = [\"echo\", \"app\"]\ndepends_on = [\"shared:build\"]\n",
    );
    tree.package(
        "unrelated",
        "[package]\nname = \"unrelated\"\n\n[tasks.build]\ncommand = [\"echo\", \"unrelated\"]\n",
    );

    let plan = tree.plan(Some("app"), &[]).expect("plan succeeds");

    assert_eq!(
        plan.iter().map(|task| task.package()).collect::<Vec<_>>(),
        vec!["shared", "app"]
    );
}

#[test]
fn supports_custom_pipeline_task_names_and_task_environment() {
    let mut tree = Tree::with(
        "[workspace]\nname = \"test\"\nmembers = [\"packages/*\"]\ndefault_pipeline = \"docs\"\n\n[pipelines.docs]\ntasks = [\"generate\"]\n",
    );
    tree.package(
        "docs",
        "[package]\nname = \"docs\"\n\n[tasks.generate]\ncommand = [\"make\", \"docs\"]\ncwd = \"site\"\nenv = { MODE = \"check\" }\n",
    );
    tree.directories.push("/work/packages/docs/site".to_owned());

    let plan = tree.plan(None, &[]).expect("plan succeeds");

    assert_eq!(plan[0].task(), "generate");
    assert_eq!(plan[0].cwd(), "/work/packages/docs/site");
    assert_eq!(plan[0].env().get("MODE").unwrap(), "check");
    assert_eq!(plan[0].timeout(), Duration::from_secs(600));
    assert_eq!(plan[0].resource_group(), None);
}

#[test]
fn plans_timeout_and_resource_group_settings() {
    let tree = app(
        "[tasks.build]\ncommand = [\"echo\", \"app\"]\ntimeout_seconds = 30\nresource_group = \"integration\"\n",
    );

    let plan = tree.plan(None, &[]).expect("plan succeeds");

    assert_eq!(plan[0].timeout(), Duration::from_secs(30));
    assert_eq!(plan[0].resource_group(), Some("integration"));
}

#[test]
fn rejects_cacheable_tasks_without_inputs() {
    let tree = app(
        "[tasks.build]\ncommand = [\"echo\", \"app\"]\ncache = true\noutputs = [\"dist/**\"]\n",
    );

    let error = tree.load().expect_err("cacheable task needs inputs");
    assert!(error.message().contains("input pattern"));
}

#[test]
fn rejects_zero_timeout() {
    let tree = app("[tasks.build]\ncommand = [\"echo\", \"app\"]\ntimeout_seconds = 0\n");

    let error = tree.load().expect_err("zero timeout must be rejected");
    assert!(error.message().contains("timeout_seconds"));
}

#[test]
fn rejects_empty_resource_group() {
    let tree = app("[tasks.build]\ncommand = [\"echo\", \"app\"]\nresource_group = \"\"\n");

    let error = tree.load().expect_err("empty resource group must be rejected");
    assert!(error.message().contains("resource_group"));
}

#[test]
fn rejects_task_cycles_with_the_cycle_path() {
    let tree = app(
        "[tasks.build]\ncommand = [\"echo\", \"app\"]\ndepends_on = [\"test\"]\n\n[tasks.test]\ncommand = [\"echo\", \"app\"]\ndepends_on = [\"build\"]\n",
    );

    let error = tree.load().expect_err("cycle must be rejected");
    assert!(matches!(error, WorkspaceError::TaskCycle { .. }));
    assert!(error
        .message()
        .contains("app:build -> app:test -> app:build"));
}

#[test]
fn rejects_a_missing_task_working_directory_during_load() {
    let tree = app("[tasks.build]\ncommand = [\"echo\", \"app\"]\ncwd = \"missing\"\n");

    let error = tree.load().expect_err("missing cwd must be rejected");
    assert!(error.message().contains("missing"));
}

#[test]
fn rejects_process_values_containing_nul() {
    let tree = app("[tasks.build]\ncommand = [\"echo\", \"bad\\u0000value\"]\n");

    let error = tree
        .load()
        .expect_err("NUL command argument must be rejected");
    assert!(error.message().contains("NUL"));
}

#[test]
fn rejects_a_qualified_root_outside_package_selection() {
    let mut tree = Tree::with(MEMBERS);
    tree.package(
        "shared",
        "[package]\nname = \"shared\"\n\n[tasks.build]\ncommand = [\"echo\", \"shared\"]\n",
    );
    tree.package(
        "app",
        "[package]\nname = \"app\"\n\n[tasks.build]\ncommand = [\"echo\", \"app\"]\n",
    );

    let error = tree
        .plan(Some("app"), &["shared:build"])
        .expect_err("selection conflict must be explicit");
    assert!(matches!(
        error,
        WorkspaceError::TaskOutsideSelectedPackage { .. }
    ));
}

#[test]
fn a_member_is_counted_once_and_named_once() {
    let build = "[package]\nname = \"app\"\n\n[tasks.build]\ncommand = [\"echo\", \"app\"]\n";
    let mut tree = Tree::with(MEMBERS);
    tree.package("app", build);
    let load = |tree: &Tree, members: Vec<Result<Member, WorkspaceError>>| {
        Workspace::load(
            ROOT,
            mono::workspace::ScopeKind::Workspace,
            parse(MEMBERS).unwrap(),
            members,
            &tree.directories(),
        )
    };
    let mut twice = tree.members();
    twice.extend(tree.members());
    assert_eq!(load(&tree, twice).unwrap().packages.len(), 1);

    tree.package("other", build);
    assert!(matches!(
        load(&tree, tree.members()),
        Err(WorkspaceError::DuplicatePackage { name }) if name == "app"
    ));

    let mut outside = tree.members();
    outside[0].as_mut().unwrap().canonical = Ok("/elsewhere".to_owned());
    assert!(matches!(
        load(&tree, outside),
        Err(WorkspaceError::InvalidManifest { .. })
    ));

    let mut bare = tree.members();
    bare[0].as_mut().unwrap().manifest = None;
    assert!(matches!(
        load(&tree, bare),
        Err(WorkspaceError::MissingPackageManifest { path }) if path == config_path("/work/packages/app")
    ));

    let refused = vec![Err(WorkspaceError::InvalidMemberPattern {
        pattern: "**".to_owned(),
    })];
    assert!(matches!(
        load(&tree, refused),
        Err(WorkspaceError::InvalidMemberPattern { .. })
    ));
}

#[test]
fn unknown_names_are_reported_with_the_closest_one() {
    let tree = app("[tasks.build]\ncommand = [\"echo\", \"app\"]\n");
    assert!(tree
        .plan(Some("apps"), &[])
        .unwrap_err()
        .message()
        .contains("Did you mean 'app'?"));
    assert!(matches!(
        tree.plan(None, &["app:missing"]),
        Err(WorkspaceError::MissingTask { .. })
    ));
}

#[test]
fn the_graph_names_each_dependency() {
    let tree = Tree::with(STANDALONE);
    let scope = tree.load().unwrap();
    let edges = scope
        .graph(&tree.directories(), None, None, &Vec::new())
        .unwrap();
    assert_eq!(edges[0], (TaskNode::new("app", "build"), Vec::new()));
    assert_eq!(
        edges[1],
        (
            TaskNode::new("app", "test"),
            vec![TaskNode::new("app", "build")]
        )
    );
}

#[test]
fn a_scope_says_what_it_is() {
    assert_eq!(Tree::with(STANDALONE).load().unwrap().scope_label(), "project");
    let tree = app("[tasks.build]\ncommand = [\"echo\", \"app\"]\n");
    assert_eq!(tree.load().unwrap().scope_label(), "monorepo");
}
