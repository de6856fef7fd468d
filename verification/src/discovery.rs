//! Finding the manifest of a project.

use vstd::prelude::*;

use crate::config::{config_path, MonoConfig, CONFIG_FILE_NAME};
use crate::io::IoError;
use crate::path::{ancestors, ancestors_of, join_path, parent, parent_of};
use crate::project::error::{ProjectError, ProjectFault};
use crate::text::{holds, texts};

verus! {

/// A root and the manifest that was found there.
#[derive(Debug)]
pub struct DiscoveredRoot {
    pub root: String,
    pub config: MonoConfig,
}

/// Where a search starts, as the operating system resolves it.
#[derive(Debug)]
pub struct Start {
    pub path: String,
    pub is_directory: bool,
}

/// What came of reading a manifest.
#[derive(Debug)]
pub enum ManifestRead {
    Failed(IoError),
    /// The contents could not be understood; why, in words.
    Malformed(String),
    Parsed(MonoConfig),
}

/// The directory that a search starts in: that of a file is its parent.
pub open spec fn first_directory(start: Start) -> Seq<char> {
    if start.is_directory {
        start.path@
    } else {
        match parent(start.path@) {
            Some(above) => above,
            None => "/"@,
        }
    }
}

/// The directories that may hold the manifest, from the nearest up.
pub fn candidates(start: &Start) -> (r: Vec<String>)
    ensures
        texts(r@) == ancestors(first_directory(*start)),
{
    if start.is_directory {
        return ancestors_of(start.path.as_str());
    }
    match parent_of(start.path.as_str()) {
        Some(above) => ancestors_of(above.as_str()),
        None => ancestors_of("/"),
    }
}

/// Whether a directory holds a manifest.
pub open spec fn holds_manifest(manifests: Seq<Seq<char>>, dir: Seq<char>) -> bool {
    manifests.contains(join_path(dir, CONFIG_FILE_NAME@))
}

/// The first of some directories that holds a manifest.
pub open spec fn nearest(dirs: Seq<Seq<char>>, manifests: Seq<Seq<char>>) -> Option<Seq<char>>
    decreases dirs.len(),
{
    if dirs.len() == 0 {
        None
    } else if holds_manifest(manifests, dirs[0]) {
        Some(dirs[0])
    } else {
        nearest(dirs.drop_first(), manifests)
    }
}

/// The root that a search comes to.
pub open spec fn located(
    start: Seq<char>,
    canonical: Result<Start, IoError>,
    manifests: Seq<Seq<char>>,
) -> Result<Seq<char>, ProjectFault> {
    match canonical {
        Err(source) => Err(ProjectFault::Io { path: start, source: source@ }),
        Ok(from) => match nearest(ancestors(first_directory(from)), manifests) {
            Some(root) => Ok(root),
            None => Err(ProjectFault::MissingRoot { start: from.path@ }),
        },
    }
}

/// The nearest directory with a manifest, from `start` upward. `manifests`
/// lists the manifests there are among the candidates.
#[verifier::loop_isolation(false)]
pub fn locate_root(start: &str, canonical: &Result<Start, IoError>, manifests: &Vec<String>) -> (r:
    Result<String, ProjectError>)
    ensures
        match r {
            Ok(root) => located(start@, *canonical, texts(manifests@)) == Ok::<
                Seq<char>,
                ProjectFault,
            >(root@),
            Err(e) => located(start@, *canonical, texts(manifests@)) == Err::<
                Seq<char>,
                ProjectFault,
            >(e@),
        },
{
    let from = match canonical {
        Ok(from) => from,
        Err(source) => {
            return Err(ProjectError::Io { path: start.to_owned(), source: source.copy() });
        },
    };
    let dirs = candidates(from);
    let ghost all = texts(dirs@);
    let mut i: usize = 0;
    assert(all.skip(0) =~= all);
    while i < dirs.len()
        invariant
            i <= dirs@.len(),
            nearest(all, texts(manifests@)) == nearest(all.skip(i as int), texts(manifests@)),
        decreases dirs.len() - i,
    {
        let ghost rest = all.skip(i as int);
        assert(rest[0] == dirs@[i as int]@);
        if holds(manifests, config_path(dirs[i].as_str()).as_str()) {
            return Ok(dirs[i].clone());
        }
        assert(rest.drop_first() =~= all.skip(i as int + 1));
        i += 1;
    }
    Err(ProjectError::MissingRoot { start: from.path.clone() })
}

/// What a manifest says.
pub fn read_manifest(path: &str, read: ManifestRead) -> (r: Result<MonoConfig, ProjectError>)
    ensures
        match read {
            ManifestRead::Failed(source) => r matches Err(e) && e@ == (ProjectFault::Io {
                path: path@,
                source: source@,
            }),
            ManifestRead::Malformed(source) => r matches Err(e) && e@ == (ProjectFault::Parse {
                path: path@,
                source: source@,
            }),
            ManifestRead::Parsed(config) => r == Ok::<MonoConfig, ProjectError>(config),
        },
{
    match read {
        ManifestRead::Failed(source) => Err(ProjectError::Io { path: path.to_owned(), source }),
        ManifestRead::Malformed(source) => Err(
            ProjectError::Parse { path: path.to_owned(), source },
        ),
        ManifestRead::Parsed(config) => Ok(config),
    }
}

/// Find the nearest root manifest, walking upward from `start`. `read` is what
/// came of reading the manifest that is found.
pub fn find_root(
    start: &str,
    canonical: &Result<Start, IoError>,
    manifests: &Vec<String>,
    read: ManifestRead,
) -> (r: Result<DiscoveredRoot, ProjectError>)
    ensures
        match located(start@, *canonical, texts(manifests@)) {
            Err(fault) => r matches Err(e) && e@ == fault,
            Ok(root) => match read {
                ManifestRead::Parsed(config) => r matches Ok(found) && found.root@ == root
                    && found.config == config,
                ManifestRead::Failed(source) => r matches Err(e) && e@ == (ProjectFault::Io {
                    path: join_path(root, CONFIG_FILE_NAME@),
                    source: source@,
                }),
                ManifestRead::Malformed(source) => r matches Err(e) && e@ == (ProjectFault::Parse {
                    path: join_path(root, CONFIG_FILE_NAME@),
                    source: source@,
                }),
            },
        },
{
    let root = match locate_root(start, canonical, manifests) {
        Ok(root) => root,
        Err(e) => {
            return Err(e);
        },
    };
    match read_manifest(config_path(root.as_str()).as_str(), read) {
        Ok(config) => Ok(DiscoveredRoot { root, config }),
        Err(e) => Err(e),
    }
}

/// The root that is found is among the directories that are searched, holds a
/// manifest, and no nearer one does.
pub proof fn law_the_nearest_manifest_wins(dirs: Seq<Seq<char>>, manifests: Seq<Seq<char>>)
    ensures
        match nearest(dirs, manifests) {
            Some(root) => exists|i: int|
                0 <= i < dirs.len() && #[trigger] dirs[i] == root && holds_manifest(manifests, root)
                    && forall|j: int|
                    0 <= j < i ==> !holds_manifest(manifests, #[trigger] dirs[j]),
            None => forall|j: int|
                0 <= j < dirs.len() ==> !holds_manifest(manifests, #[trigger] dirs[j]),
        },
    decreases dirs.len(),
{
    if dirs.len() > 0 {
        if holds_manifest(manifests, dirs[0]) {
            assert(dirs[0] == nearest(dirs, manifests)->0);
        } else {
            let rest = dirs.drop_first();
            law_the_nearest_manifest_wins(rest, manifests);
            match nearest(rest, manifests) {
                Some(root) => {
                    let i = choose|i: int|
                        0 <= i < rest.len() && #[trigger] rest[i] == root && holds_manifest(
                            manifests,
                            root,
                        ) && forall|j: int|
                            0 <= j < i ==> !holds_manifest(manifests, #[trigger] rest[j]);
                    assert(dirs[i + 1] == root);
                    assert forall|j: int| 0 <= j < i + 1 implies !holds_manifest(
                        manifests,
                        #[trigger] dirs[j],
                    ) by {
                        if j > 0 {
                            assert(rest[j - 1] == dirs[j]);
                        }
                    }
                },
                None => {
                    assert forall|j: int| 0 <= j < dirs.len() implies !holds_manifest(
                        manifests,
                        #[trigger] dirs[j],
                    ) by {
                        if j > 0 {
                            assert(rest[j - 1] == dirs[j]);
                        }
                    }
                },
            }
        }
    }
}

/// The root that is found is a directory with a manifest, the start itself or one
/// above it, and no directory that is nearer to the start has one; where a search
/// from a directory that can be resolved fails, none has one.
pub proof fn law_the_root_is_the_nearest_directory_with_a_manifest(
    start: Seq<char>,
    from: Start,
    manifests: Seq<Seq<char>>,
)
    ensures
        ({
            let dirs = ancestors(first_directory(from));
            match located(start, Ok(from), manifests) {
                Ok(root) => exists|k: int|
                    0 <= k < dirs.len() && #[trigger] dirs[k] == root && manifests.contains(
                        join_path(root, CONFIG_FILE_NAME@),
                    ) && forall|j: int|
                        0 <= j < k ==> !manifests.contains(
                            join_path(#[trigger] dirs[j], CONFIG_FILE_NAME@),
                        ),
                Err(fault) => fault == (ProjectFault::MissingRoot { start: from.path@ })
                    && forall|j: int|
                    0 <= j < dirs.len() ==> !manifests.contains(
                        join_path(#[trigger] dirs[j], CONFIG_FILE_NAME@),
                    ),
            }
        }),
        from.is_directory ==> first_directory(from) == from.path@,
        !from.is_directory && parent(from.path@) is Some ==> Some(first_directory(from)) == parent(
            from.path@,
        ),
{
    let dirs = ancestors(first_directory(from));
    law_the_nearest_manifest_wins(dirs, manifests);
    assert(forall|j: int|
        0 <= j < dirs.len() && !holds_manifest(manifests, #[trigger] dirs[j])
            ==> !manifests.contains(join_path(dirs[j], CONFIG_FILE_NAME@)));
}

} // verus!
