//! Loading a workspace: the manifests, and everything they must agree on.

use vstd::prelude::*;
use vstd::string::StringExecFns;

use crate::config::{config_path, PipelineConfig, TaskConfig, CONFIG_FILE_NAME};
use crate::io::IoError;
use crate::map::{inserted, law_insert_lookup, lemma_lookup_some, lookup, TextMap};
use crate::path::{below, is_absolute, is_below, join_path};
use crate::project::graph::Tasks;
use crate::project::validate::{Directories, Resolution};
use crate::project::{first_problem, lemma_first_problem, quoted};
use crate::text::{holds, same, texts};
use crate::workspace::error::{WorkspaceError, WorkspaceFault};
use crate::workspace::graph::{reference_problem, workspace_name, PackageView, Scope};
use crate::workspace::validate::{
    identifier_problem, package_problem, tasks_problem, validate_identifier,
    validate_package_config, validate_task_reference,
};
use crate::workspace::{
    is_runnable, lemma_package_lookup, package_entries, plan_of, tasks_runnable, unknown_pipeline,
    unknown_pipeline_error, Package, Packages, ScopeKind, Workspace, WORKSPACE_PACKAGE_NAME,
};

verus! {

/// What a root manifest says of the workspace.
#[derive(Debug, Clone, PartialEq, Eq)]
pub struct WorkspaceConfig {
    pub name: String,
    pub members: Vec<String>,
    pub default_pipeline: String,
}

/// What a manifest says of its package.
#[derive(Debug, Clone, PartialEq, Eq)]
pub struct PackageConfig {
    pub name: String,
}

/// One manifest: that of a workspace, of a package, or of both in one.
#[derive(Debug, Clone)]
pub struct MonorepoConfig {
    pub workspace: Option<WorkspaceConfig>,
    pub package: Option<PackageConfig>,
    pub tasks: TextMap<TaskConfig>,
    pub pipelines: TextMap<PipelineConfig>,
}

/// What was found at one path that a member pattern stands for.
#[derive(Debug)]
pub struct Member {
    /// The path as it was found.
    pub path: String,
    /// The path as the operating system resolves it.
    pub canonical: Result<String, IoError>,
    /// The manifest there, where there is one.
    pub manifest: Option<Result<MonorepoConfig, WorkspaceError>>,
}

/// Pipelines by name.
pub type Pipelines = Seq<(Seq<char>, PipelineConfig)>;

/// The path of the manifest in a directory.
pub open spec fn manifest_path(dir: Seq<char>) -> Seq<char> {
    join_path(dir, CONFIG_FILE_NAME@)
}

/// A complaint about a manifest.
pub open spec fn invalid_manifest(path: Seq<char>, message: Seq<char>) -> WorkspaceFault {
    WorkspaceFault::InvalidManifest { path, message }
}

fn invalid_manifest_error(path: &str, message: &str) -> (r: WorkspaceError)
    ensures
        r@ == invalid_manifest(path@, message@),
{
    WorkspaceError::InvalidManifest { path: path.to_owned(), message: message.to_owned() }
}

fn invalid_workspace(message: &str) -> (r: WorkspaceError)
    ensures
        r@ == (WorkspaceFault::InvalidWorkspace { message: message@ }),
{
    WorkspaceError::InvalidWorkspace { message: message.to_owned() }
}

// ---------------------------------------------------------------------------
// Pipelines
// ---------------------------------------------------------------------------
/// The complaint about the name of each pipeline.
pub open spec fn pipeline_name_problem(path: Seq<char>, pipelines: Pipelines) -> spec_fn(
    int,
) -> Option<WorkspaceFault> {
    |i: int| identifier_problem(path, "pipeline name"@, pipelines[i].0)
}

/// The complaint about each task that a pipeline lists.
pub open spec fn pipeline_reference_problem(
    path: Seq<char>,
    name: Seq<char>,
    references: Seq<Seq<char>>,
) -> spec_fn(int) -> Option<WorkspaceFault> {
    |i: int|
        match reference_problem(references[i]) {
            Some(message) => Some(
                invalid_manifest(path, "pipeline '"@ + name + "': "@ + message),
            ),
            None => None,
        }
}

/// The complaint about each pipeline.
pub open spec fn pipeline_problem(path: Seq<char>, pipelines: Pipelines) -> spec_fn(int) -> Option<
    WorkspaceFault,
> {
    |i: int|
        {
            let (name, config) = pipelines[i];
            if config.tasks@.len() == 0 {
                Some(
                    WorkspaceFault::InvalidWorkspace {
                        message: "pipeline '"@ + name + "' has no tasks"@,
                    },
                )
            } else {
                first_problem(
                    config.tasks@.len(),
                    pipeline_reference_problem(path, name, texts(config.tasks@)),
                )
            }
        }
}

/// The complaint about the pipelines of a manifest: first about their names.
pub open spec fn pipelines_problem(path: Seq<char>, pipelines: Pipelines) -> Option<
    WorkspaceFault,
> {
    match first_problem(pipelines.len(), pipeline_name_problem(path, pipelines)) {
        Some(fault) => Some(fault),
        None => first_problem(pipelines.len(), pipeline_problem(path, pipelines)),
    }
}

#[verifier::loop_isolation(false)]
fn check_references(path: &str, name: &str, references: &Vec<String>) -> (r: Result<
    (),
    WorkspaceError,
>)
    ensures
        match r {
            Ok(_) => first_problem(
                references@.len(),
                pipeline_reference_problem(path@, name@, texts(references@)),
            ) is None,
            Err(e) => first_problem(
                references@.len(),
                pipeline_reference_problem(path@, name@, texts(references@)),
            ) == Some(e@),
        },
{
    let ghost problem = pipeline_reference_problem(path@, name@, texts(references@));
    let mut i: usize = 0;
    while i < references.len()
        invariant
            i <= references@.len(),
            first_problem(i as nat, problem) is None,
        decreases references.len() - i,
    {
        assert(texts(references@)[i as int] == references@[i as int]@);
        if let Err(message) = validate_task_reference(references[i].as_str()) {
            let mut text = "pipeline '".to_owned();
            text.append(name);
            text.append("': ");
            text.append(message.as_str());
            let e = invalid_manifest_error(path, text.as_str());
            proof {
                assert(problem(i as int) == Some(e@));
                lemma_first_problem(references@.len(), problem, i as nat);
            }
            return Err(e);
        }
        assert(problem(i as int) is None);
        i += 1;
    }
    Ok(())
}

#[verifier::loop_isolation(false)]
fn check_pipelines(path: &str, pipelines: &TextMap<PipelineConfig>) -> (r: Result<
    (),
    WorkspaceError,
>)
    ensures
        match r {
            Ok(_) => pipelines_problem(path@, pipelines@) is None,
            Err(e) => pipelines_problem(path@, pipelines@) == Some(e@),
        },
{
    let ghost names = pipeline_name_problem(path@, pipelines@);
    let ghost problem = pipeline_problem(path@, pipelines@);
    let mut i: usize = 0;
    while i < pipelines.len()
        invariant
            i <= pipelines@.len(),
            first_problem(i as nat, names) is None,
        decreases pipelines@.len() - i,
    {
        if let Err(e) = validate_identifier(path, "pipeline name", pipelines.key_at(i)) {
            proof {
                assert(names(i as int) == Some(e@));
                lemma_first_problem(pipelines@.len(), names, i as nat);
            }
            return Err(e);
        }
        assert(names(i as int) is None);
        i += 1;
    }
    let mut k: usize = 0;
    while k < pipelines.len()
        invariant
            k <= pipelines@.len(),
            first_problem(k as nat, problem) is None,
        decreases pipelines@.len() - k,
    {
        let name = pipelines.key_at(k);
        let config = pipelines.value_at(k);
        if config.tasks.len() == 0 {
            let message = quoted("pipeline '", name, "' has no tasks");
            let e = invalid_workspace(message.as_str());
            proof {
                assert(problem(k as int) == Some(e@));
                lemma_first_problem(pipelines@.len(), problem, k as nat);
            }
            return Err(e);
        }
        if let Err(e) = check_references(path, name, &config.tasks) {
            proof {
                assert(problem(k as int) == Some(e@));
                lemma_first_problem(pipelines@.len(), problem, k as nat);
            }
            return Err(e);
        }
        assert(problem(k as int) is None);
        k += 1;
    }
    Ok(())
}

// ---------------------------------------------------------------------------
// Members
// ---------------------------------------------------------------------------
/// What has been found of a workspace's members.
pub struct Found {
    pub paths: Seq<Seq<char>>,
    pub packages: Packages,
}

/// The complaint about a name that is kept for the workspace itself.
pub open spec fn reserved_name(path: Seq<char>) -> WorkspaceFault {
    invalid_manifest(
        path,
        "package name '"@ + workspace_name() + "' is reserved for workspace tasks"@,
    )
}

fn reserved_name_error(path: &str) -> (r: WorkspaceError)
    ensures
        r@ == reserved_name(path@),
{
    let message = quoted(
        "package name '",
        WORKSPACE_PACKAGE_NAME,
        "' is reserved for workspace tasks",
    );
    invalid_manifest_error(path, message.as_str())
}

/// The package that a member's manifest describes.
pub open spec fn member_package(
    path: Seq<char>,
    manifest: Option<Result<MonorepoConfig, WorkspaceError>>,
    directories: Seq<(Seq<char>, Resolution)>,
) -> Result<PackageView, WorkspaceFault> {
    let file = manifest_path(path);
    match manifest {
        None => Err(WorkspaceFault::MissingPackageManifest { path: file }),
        Some(Err(error)) => Err(error@),
        Some(Ok(config)) => match config.package {
            None => Err(invalid_manifest(file, "package manifest is missing [package]"@)),
            Some(package) => if config.workspace is Some || config.pipelines@.len() > 0 {
                Err(
                    invalid_manifest(
                        file,
                        "package manifests may only contain [package] and [tasks]"@,
                    ),
                )
            } else if package.name@ == workspace_name() {
                Err(reserved_name(file))
            } else {
                match package_problem(file, path, package.name@, config.tasks@, directories) {
                    Some(fault) => Err(fault),
                    None => Ok(
                        PackageView { name: package.name@, path, tasks: config.tasks@ },
                    ),
                }
            },
        },
    }
}

/// What has been found, with one member more. A directory that several
/// patterns stand for counts once.
pub open spec fn with_member(
    found: Found,
    root: Seq<char>,
    member: Result<Member, WorkspaceError>,
    directories: Seq<(Seq<char>, Resolution)>,
) -> Result<Found, WorkspaceFault> {
    match member {
        Err(error) => Err(error@),
        Ok(member) => match member.canonical {
            Err(error) => Err(WorkspaceFault::Io { path: member.path@, source: error@ }),
            Ok(path) => if !is_below(path@, root) {
                Err(
                    invalid_manifest(
                        member.path@,
                        "workspace member resolves outside the workspace root"@,
                    ),
                )
            } else if found.paths.contains(path@) {
                Ok(found)
            } else {
                match member_package(path@, member.manifest, directories) {
                    Err(fault) => Err(fault),
                    Ok(package) => if lookup(found.packages, package.name) is Some {
                        Err(WorkspaceFault::DuplicatePackage { name: package.name })
                    } else {
                        Ok(
                            Found {
                                paths: found.paths.push(path@),
                                packages: inserted(found.packages, package.name, package),
                            },
                        )
                    },
                }
            },
        },
    }
}

/// What has been found, with some members more.
pub open spec fn with_members(
    found: Found,
    root: Seq<char>,
    members: Seq<Result<Member, WorkspaceError>>,
    directories: Seq<(Seq<char>, Resolution)>,
) -> Result<Found, WorkspaceFault>
    decreases members.len(),
{
    if members.len() == 0 {
        Ok(found)
    } else {
        match with_member(found, root, members[0], directories) {
            Err(fault) => Err(fault),
            Ok(more) => with_members(more, root, members.drop_first(), directories),
        }
    }
}

fn load_member(
    path: &str,
    manifest: Option<Result<MonorepoConfig, WorkspaceError>>,
    directories: &Directories,
) -> (r: Result<Package, WorkspaceError>)
    ensures
        match r {
            Ok(package) => member_package(path@, manifest, directories.resolved@) == Ok::<
                PackageView,
                WorkspaceFault,
            >(package@),
            Err(e) => member_package(path@, manifest, directories.resolved@) == Err::<
                PackageView,
                WorkspaceFault,
            >(e@),
        },
{
    let file = config_path(path);
    let config = match manifest {
        None => {
            return Err(WorkspaceError::MissingPackageManifest { path: file });
        },
        Some(Err(error)) => {
            return Err(error);
        },
        Some(Ok(config)) => config,
    };
    let package = match config.package {
        None => {
            return Err(
                invalid_manifest_error(file.as_str(), "package manifest is missing [package]"),
            );
        },
        Some(package) => package,
    };
    if config.workspace.is_some() || config.pipelines.len() > 0 {
        return Err(
            invalid_manifest_error(
                file.as_str(),
                "package manifests may only contain [package] and [tasks]",
            ),
        );
    }
    if same(package.name.as_str(), WORKSPACE_PACKAGE_NAME) {
        return Err(reserved_name_error(file.as_str()));
    }
    if let Err(e) = validate_package_config(
        file.as_str(),
        path,
        package.name.as_str(),
        &config.tasks,
        directories,
    ) {
        return Err(e);
    }
    Ok(Package { name: package.name, path: path.to_owned(), tasks: config.tasks })
}

proof fn lemma_package_inserted(
    entries: Seq<(Seq<char>, Package)>,
    key: Seq<char>,
    package: Package,
)
    ensures
        package_entries(inserted(entries, key, package)) == inserted(
            package_entries(entries),
            key,
            package@,
        ),
    decreases entries.len(),
{
    let mapped = package_entries(entries);
    if entries.len() > 0 {
        assert(mapped.drop_first() =~= package_entries(entries.drop_first()));
        lemma_package_inserted(entries.drop_first(), key, package);
    }
    assert(package_entries(inserted(entries, key, package)) =~= inserted(mapped, key, package@));
}

fn load_members(
    root: &str,
    members: Vec<Result<Member, WorkspaceError>>,
    directories: &Directories,
) -> (r: Result<TextMap<Package>, WorkspaceError>)
    ensures
        match r {
            Ok(packages) => with_members(
                Found { paths: seq![], packages: seq![] },
                root@,
                members@,
                directories.resolved@,
            ) matches Ok(found) && found.packages == package_entries(packages@),
            Err(e) => with_members(
                Found { paths: seq![], packages: seq![] },
                root@,
                members@,
                directories.resolved@,
            ) == Err::<Found, WorkspaceFault>(e@),
        },
{
    let ghost all = members@;
    let ghost start = Found { paths: seq![], packages: seq![] };
    let ghost known = directories.resolved@;
    let mut rest = members;
    let mut paths: Vec<String> = Vec::new();
    let mut packages: TextMap<Package> = TextMap::new();
    assert(texts(paths@) =~= seq![]);
    assert(package_entries(packages@) =~= seq![]);
    while rest.len() > 0
        invariant
            known == directories.resolved@,
            all == members@,
            start == (Found { paths: seq![], packages: seq![] }),
            with_members(start, root@, all, known) == with_members(
                (Found { paths: texts(paths@), packages: package_entries(packages@) }),
                root@,
                rest@,
                known,
            ),
        decreases rest@.len(),
    {
        let ghost found = Found {
            paths: texts(paths@),
            packages: package_entries(packages@),
        };
        let ghost before = rest@;
        let member = rest.remove(0);
        assert(rest@ =~= before.drop_first());
        assert(member == before[0]);
        let member = match member {
            Err(error) => {
                assert(with_member(found, root@, before[0], known) == Err::<Found, WorkspaceFault>(
                    error@,
                ));
                return Err(error);
            },
            Ok(member) => member,
        };
        let path = match member.canonical {
            Err(source) => {
                let e = WorkspaceError::Io { path: member.path, source };
                assert(with_member(found, root@, before[0], known) == Err::<Found, WorkspaceFault>(
                    e@,
                ));
                return Err(e);
            },
            Ok(path) => path,
        };
        if !below(path.as_str(), root) {
            return Err(
                invalid_manifest_error(
                    member.path.as_str(),
                    "workspace member resolves outside the workspace root",
                ),
            );
        }
        if !holds(&paths, path.as_str()) {
            let package = match load_member(path.as_str(), member.manifest, directories) {
                Ok(package) => package,
                Err(e) => {
                    return Err(e);
                },
            };
            proof {
                lemma_package_lookup(packages@, package.name@);
                lemma_package_inserted(packages@, package.name@, package);
            }
            let name = package.name.clone();
            if packages.contains_key(name.as_str()) {
                return Err(WorkspaceError::DuplicatePackage { name });
            }
            packages.insert(name, package);
            let ghost seen = texts(paths@);
            paths.push(path);
            assert(texts(paths@) =~= seen.push(path@));
        }
    }
    Ok(packages)
}

// ---------------------------------------------------------------------------
// Scopes
// ---------------------------------------------------------------------------
/// The complaint about the plan of each pipeline.
pub open spec fn pipeline_plan_problem(
    scope: Scope,
    directories: Seq<(Seq<char>, Resolution)>,
) -> spec_fn(int) -> Option<WorkspaceFault> {
    |i: int|
        match plan_of(scope, directories, None, Some(scope.pipelines[i].0), seq![]) {
            Err(fault) => Some(fault),
            Ok(_) => None,
        }
}

/// A scope whose pipelines can all be planned.
pub open spec fn planned_scope(
    scope: Scope,
    directories: Seq<(Seq<char>, Resolution)>,
) -> Result<Scope, WorkspaceFault> {
    match first_problem(scope.pipelines.len(), pipeline_plan_problem(scope, directories)) {
        Some(fault) => Err(fault),
        None => Ok(scope),
    }
}

/// The complaint about the manifest of a workspace, before its members are
/// looked at: the first rule, in this order, that it breaks.
pub open spec fn root_problem(
    root: Seq<char>,
    config: MonorepoConfig,
    workspace: WorkspaceConfig,
    directories: Seq<(Seq<char>, Resolution)>,
) -> Option<WorkspaceFault> {
    let path = manifest_path(root);
    if let Some(fault) = identifier_problem(path, "workspace name"@, workspace.name@) {
        Some(fault)
    } else if let Some(fault) = identifier_problem(
        path,
        "default pipeline"@,
        workspace.default_pipeline@,
    ) {
        Some(fault)
    } else if let Some(fault) = pipelines_problem(path, config.pipelines@) {
        Some(fault)
    } else if config.package is Some {
        Some(
            invalid_manifest(
                path,
                "root manifests may only contain [workspace], [tasks], and [pipelines]"@,
            ),
        )
    } else if let Some(fault) = package_problem(
        path,
        root,
        workspace_name(),
        config.tasks@,
        directories,
    ) {
        Some(fault)
    } else if config.pipelines@.len() == 0 {
        Some(
            WorkspaceFault::InvalidWorkspace {
                message: "workspace must define at least one pipeline"@,
            },
        )
    } else if lookup(config.pipelines@, workspace.default_pipeline@) is None {
        Some(unknown_pipeline(config.pipelines@, workspace.default_pipeline@))
    } else {
        None
    }
}

/// The workspace that a root manifest and its members describe.
pub open spec fn loaded_workspace(
    root: Seq<char>,
    config: MonorepoConfig,
    members: Seq<Result<Member, WorkspaceError>>,
    directories: Seq<(Seq<char>, Resolution)>,
) -> Result<Scope, WorkspaceFault> {
    match config.workspace {
        None => Err(
            invalid_manifest(manifest_path(root), "root manifest is missing [workspace]"@),
        ),
        Some(workspace) => match root_problem(root, config, workspace, directories) {
            Some(fault) => Err(fault),
            None => match with_members(
                Found { paths: seq![], packages: seq![] },
                root,
                members,
                directories,
            ) {
                Err(fault) => Err(fault),
                Ok(found) => planned_scope(
                    Scope {
                        root,
                        name: workspace.name@,
                        default_pipeline: workspace.default_pipeline@,
                        pipelines: config.pipelines@,
                        workspace_tasks: config.tasks@,
                        packages: found.packages,
                        standalone: false,
                    },
                    directories,
                ),
            },
        },
    }
}

/// The complaint about the manifest of a project of one package.
pub open spec fn standalone_problem(
    root: Seq<char>,
    config: MonorepoConfig,
    package: PackageConfig,
    directories: Seq<(Seq<char>, Resolution)>,
) -> Option<WorkspaceFault> {
    let path = manifest_path(root);
    if let Some(fault) = identifier_problem(path, "package name"@, package.name@) {
        Some(fault)
    } else if package.name@ == workspace_name() {
        Some(reserved_name(path))
    } else if let Some(fault) = pipelines_problem(path, config.pipelines@) {
        Some(fault)
    } else if config.pipelines@.len() == 0 {
        Some(
            WorkspaceFault::InvalidWorkspace {
                message: "standalone project must define at least one pipeline"@,
            },
        )
    } else if lookup(config.pipelines@, "ci"@) is None {
        Some(unknown_pipeline(config.pipelines@, "ci"@))
    } else {
        package_problem(path, root, package.name@, config.tasks@, directories)
    }
}

/// The project of one package that a manifest describes.
pub open spec fn loaded_standalone(
    root: Seq<char>,
    config: MonorepoConfig,
    directories: Seq<(Seq<char>, Resolution)>,
) -> Result<Scope, WorkspaceFault> {
    match config.package {
        None => Err(
            invalid_manifest(manifest_path(root), "standalone manifests require [package]"@),
        ),
        Some(package) => match standalone_problem(root, config, package, directories) {
            Some(fault) => Err(fault),
            None => planned_scope(
                Scope {
                    root,
                    name: package.name@,
                    default_pipeline: "ci"@,
                    pipelines: config.pipelines@,
                    workspace_tasks: seq![],
                    packages: seq![
                        (
                            package.name@,
                            PackageView { name: package.name@, path: root, tasks: config.tasks@ },
                        ),
                    ],
                    standalone: true,
                },
                directories,
            ),
        },
    }
}

/// What loading comes to.
pub open spec fn loaded(
    root: Seq<char>,
    kind: ScopeKind,
    config: MonorepoConfig,
    members: Seq<Result<Member, WorkspaceError>>,
    directories: Seq<(Seq<char>, Resolution)>,
) -> Result<Scope, WorkspaceFault> {
    if kind == ScopeKind::Standalone {
        loaded_standalone(root, config, directories)
    } else {
        loaded_workspace(root, config, members, directories)
    }
}

/// What holds of every scope that was loaded.
pub open spec fn is_sound(scope: Scope) -> bool {
    &&& is_runnable(scope)
    &&& scope.name.len() > 0
    &&& lookup(scope.pipelines, scope.default_pipeline) is Some
    &&& forall|i: int|
        0 <= i < scope.packages.len() ==> {
            &&& (#[trigger] scope.packages[i]).0 == scope.packages[i].1.name
            &&& scope.packages[i].0.len() > 0
            &&& scope.packages[i].0 != workspace_name()
        }
    &&& scope.standalone ==> scope.packages.len() == 1 && scope.packages[0].1.path == scope.root
        && scope.workspace_tasks.len() == 0
}

proof fn lemma_package_runnable(
    path: Seq<char>,
    package_path: Seq<char>,
    package: Seq<char>,
    tasks: Tasks,
    directories: Seq<(Seq<char>, Resolution)>,
)
    requires
        package_problem(path, package_path, package, tasks, directories) is None,
    ensures
        package.len() > 0,
        tasks_runnable(tasks),
{
    let problem = tasks_problem(path, package_path, package, tasks, directories);
    assert forall|i: int| 0 <= i < tasks.len() implies (#[trigger] tasks[i]).1.command@.len() > 0
        && tasks[i].1.timeout_seconds > 0 by {
        lemma_no_problem(tasks.len(), problem, i as nat);
        assert(problem(i) is None);
        assert(texts(tasks[i].1.command@).len() == tasks[i].1.command@.len());
    }
}

proof fn lemma_no_problem<F>(count: nat, problem: spec_fn(int) -> Option<F>, k: nat)
    requires
        k < count,
        first_problem(count, problem) is None,
    ensures
        problem(k as int) is None,
    decreases count,
{
    if k + 1 < count {
        lemma_no_problem((count - 1) as nat, problem, k);
    }
}

/// Whether what has been found is in order.
spec fn found_sound(found: Found, root: Seq<char>) -> bool {
    &&& crate::map::sorted(found.packages)
    &&& forall|i: int|
        0 <= i < found.packages.len() ==> {
            &&& (#[trigger] found.packages[i]).0 == found.packages[i].1.name
            &&& found.packages[i].0.len() > 0
            &&& found.packages[i].0 != workspace_name()
            &&& is_below(found.packages[i].1.path, root)
            &&& tasks_runnable(found.packages[i].1.tasks)
        }
}

proof fn lemma_members_sound(
    found: Found,
    root: Seq<char>,
    members: Seq<Result<Member, WorkspaceError>>,
    directories: Seq<(Seq<char>, Resolution)>,
)
    requires
        found_sound(found, root),
        with_members(found, root, members, directories) is Ok,
    ensures
        found_sound(with_members(found, root, members, directories)->Ok_0, root),
    decreases members.len(),
{
    if members.len() > 0 {
        let more = with_member(found, root, members[0], directories)->Ok_0;
        if more != found {
            let member = members[0]->Ok_0;
            let path = member.canonical->Ok_0@;
            let package = member_package(path, member.manifest, directories)->Ok_0;
            lemma_package_runnable(
                manifest_path(path),
                path,
                package.name,
                package.tasks,
                directories,
            );
            law_insert_lookup(found.packages, package.name, package);
            assert(found_sound(more, root)) by {
                assert forall|i: int| 0 <= i < more.packages.len() implies {
                    &&& (#[trigger] more.packages[i]).0 == more.packages[i].1.name
                    &&& more.packages[i].0.len() > 0
                    &&& more.packages[i].0 != workspace_name()
                    &&& is_below(more.packages[i].1.path, root)
                    &&& tasks_runnable(more.packages[i].1.tasks)
                } by {
                    let (key, value) = more.packages[i];
                    crate::map::lemma_lookup_index(more.packages, i);
                    if key != package.name {
                        assert(lookup(found.packages, key) == Some(value));
                        lemma_lookup_some(found.packages, key);
                        let k = choose|k: int|
                            0 <= k < found.packages.len() && #[trigger] found.packages[k] == (
                                key,
                                lookup(found.packages, key)->0,
                            );
                        assert(found.packages[k].1 == value);
                    } else {
                        assert(value == package);
                    }
                }
            }
        }
        lemma_members_sound(more, root, members.drop_first(), directories);
    }
}

/// Whatever loads is in order: every package lies below the root under its own
/// name, every task can be run, the default pipeline exists, and a project of
/// one package has no other.
pub proof fn law_loaded_scopes_are_sound(
    root: Seq<char>,
    kind: ScopeKind,
    config: MonorepoConfig,
    members: Seq<Result<Member, WorkspaceError>>,
    directories: Seq<(Seq<char>, Resolution)>,
)
    requires
        is_absolute(root),
        loaded(root, kind, config, members, directories) is Ok,
    ensures
        is_sound(loaded(root, kind, config, members, directories)->Ok_0),
{
    let scope = loaded(root, kind, config, members, directories)->Ok_0;
    let path = manifest_path(root);
    assert(is_below(root, root)) by {
        let own = crate::path::components(root);
        assert(own.subrange(0, own.len() as int) =~= own);
    }
    if kind == ScopeKind::Standalone {
        let package = config.package->0;
        lemma_package_runnable(path, root, package.name@, config.tasks@, directories);
    } else {
        lemma_package_runnable(path, root, workspace_name(), config.tasks@, directories);
        let start = Found { paths: seq![], packages: seq![] };
        lemma_members_sound(start, root, members, directories);
    }
}

impl Workspace {
    /// Plan every pipeline, and find the first that cannot be.
    #[verifier::loop_isolation(false)]
    fn check_plans(&self, directories: &Directories) -> (r: Result<(), WorkspaceError>)
        requires
            is_runnable(self@),
        ensures
            match r {
                Ok(_) => planned_scope(self@, directories.resolved@) == Ok::<
                    Scope,
                    WorkspaceFault,
                >(self@),
                Err(e) => planned_scope(self@, directories.resolved@) == Err::<
                    Scope,
                    WorkspaceFault,
                >(e@),
            },
    {
        let ghost problem = pipeline_plan_problem(self@, directories.resolved@);
        let none: Vec<String> = Vec::new();
        assert(texts(none@) =~= seq![]);
        let mut i: usize = 0;
        while i < self.pipelines.len()
            invariant
                i <= self.pipelines@.len(),
                first_problem(i as nat, problem) is None,
            decreases self.pipelines@.len() - i,
        {
            let name = self.pipelines.key_at(i);
            if let Err(e) = self.plan(directories, None, Some(name), &none) {
                proof {
                    assert(problem(i as int) == Some(e@));
                    lemma_first_problem(self.pipelines@.len(), problem, i as nat);
                }
                return Err(e);
            }
            assert(problem(i as int) is None);
            i += 1;
        }
        Ok(())
    }

    /// Load the scope that the manifest at `root` describes, which stands
    /// for what was found of its members and of the directories it names.
    pub fn load(
        root: &str,
        kind: ScopeKind,
        config: MonorepoConfig,
        members: Vec<Result<Member, WorkspaceError>>,
        directories: &Directories,
    ) -> (r: Result<Workspace, WorkspaceError>)
        requires
            is_absolute(root@),
        ensures
            match r {
                Ok(workspace) => loaded(root@, kind, config, members@, directories.resolved@)
                    == Ok::<Scope, WorkspaceFault>(workspace@) && is_sound(workspace@),
                Err(e) => loaded(root@, kind, config, members@, directories.resolved@) == Err::<
                    Scope,
                    WorkspaceFault,
                >(e@),
            },
    {
        if kind == ScopeKind::Standalone {
            return Self::load_standalone(root, config, directories);
        }
        let path = config_path(root);
        let workspace_config = match config.workspace {
            Some(workspace_config) => workspace_config,
            None => {
                return Err(
                    invalid_manifest_error(path.as_str(), "root manifest is missing [workspace]"),
                );
            },
        };
        if let Err(e) = validate_identifier(
            path.as_str(),
            "workspace name",
            workspace_config.name.as_str(),
        ) {
            return Err(e);
        }
        if let Err(e) = validate_identifier(
            path.as_str(),
            "default pipeline",
            workspace_config.default_pipeline.as_str(),
        ) {
            return Err(e);
        }
        if let Err(e) = check_pipelines(path.as_str(), &config.pipelines) {
            return Err(e);
        }
        if config.package.is_some() {
            return Err(
                invalid_manifest_error(
                    path.as_str(),
                    "root manifests may only contain [workspace], [tasks], and [pipelines]",
                ),
            );
        }
        if let Err(e) = validate_package_config(
            path.as_str(),
            root,
            WORKSPACE_PACKAGE_NAME,
            &config.tasks,
            directories,
        ) {
            return Err(e);
        }
        if config.pipelines.is_empty() {
            return Err(invalid_workspace("workspace must define at least one pipeline"));
        }
        if !config.pipelines.contains_key(workspace_config.default_pipeline.as_str()) {
            return Err(
                unknown_pipeline_error(
                    &config.pipelines,
                    workspace_config.default_pipeline.as_str(),
                ),
            );
        }
        let ghost listed = members@;
        let packages = match load_members(root, members, directories) {
            Ok(packages) => packages,
            Err(e) => {
                return Err(e);
            },
        };
        proof {
            lemma_package_runnable(
                path@,
                root@,
                workspace_name(),
                config.tasks@,
                directories.resolved@,
            );
            lemma_members_sound(
                Found { paths: seq![], packages: seq![] },
                root@,
                listed,
                directories.resolved@,
            );
        }
        let workspace = Workspace {
            root: root.to_owned(),
            name: workspace_config.name,
            default_pipeline: workspace_config.default_pipeline,
            pipelines: config.pipelines,
            workspace_tasks: config.tasks,
            packages,
            kind: ScopeKind::Workspace,
        };
        if let Err(e) = workspace.check_plans(directories) {
            return Err(e);
        }
        Ok(workspace)
    }

    fn load_standalone(root: &str, config: MonorepoConfig, directories: &Directories) -> (r: Result<
        Workspace,
        WorkspaceError,
    >)
        requires
            is_absolute(root@),
        ensures
            match r {
                Ok(workspace) => loaded_standalone(root@, config, directories.resolved@) == Ok::<
                    Scope,
                    WorkspaceFault,
                >(workspace@) && is_sound(workspace@),
                Err(e) => loaded_standalone(root@, config, directories.resolved@) == Err::<
                    Scope,
                    WorkspaceFault,
                >(e@),
            },
    {
        let path = config_path(root);
        let package_config = match config.package {
            Some(package_config) => package_config,
            None => {
                return Err(
                    invalid_manifest_error(path.as_str(), "standalone manifests require [package]"),
                );
            },
        };
        let name = package_config.name;
        if let Err(e) = validate_identifier(path.as_str(), "package name", name.as_str()) {
            return Err(e);
        }
        if same(name.as_str(), WORKSPACE_PACKAGE_NAME) {
            return Err(reserved_name_error(path.as_str()));
        }
        if let Err(e) = check_pipelines(path.as_str(), &config.pipelines) {
            return Err(e);
        }
        if config.pipelines.is_empty() {
            return Err(invalid_workspace("standalone project must define at least one pipeline"));
        }
        if !config.pipelines.contains_key("ci") {
            return Err(unknown_pipeline_error(&config.pipelines, "ci"));
        }
        if let Err(e) = validate_package_config(
            path.as_str(),
            root,
            name.as_str(),
            &config.tasks,
            directories,
        ) {
            return Err(e);
        }
        proof {
            lemma_package_runnable(path@, root@, name@, config.tasks@, directories.resolved@);
            let own = crate::path::components(root@);
            assert(own.subrange(0, own.len() as int) =~= own);
        }
        let package = Package { name: name.clone(), path: root.to_owned(), tasks: config.tasks };
        let mut packages: TextMap<Package> = TextMap::new();
        packages.insert(name.clone(), package);
        assert(package_entries(packages@) =~= seq![(name@, package@)]);
        let workspace_tasks: TextMap<TaskConfig> = TextMap::new();
        let workspace = Workspace {
            root: root.to_owned(),
            name,
            default_pipeline: "ci".to_owned(),
            pipelines: config.pipelines,
            workspace_tasks,
            packages,
            kind: ScopeKind::Standalone,
        };
        assert(workspace@.workspace_tasks =~= seq![]);
        if let Err(e) = workspace.check_plans(directories) {
            return Err(e);
        }
        Ok(workspace)
    }
}

} // verus!
