//! Which manifest above a place is that of its root.

use vstd::prelude::*;

use crate::config::config_path;
use crate::workspace::error::{WorkspaceError, WorkspaceFault};
use crate::workspace::load::{invalid_manifest, manifest_path, MonorepoConfig};
use crate::workspace::ScopeKind;

verus! {

/// A manifest that was found on the way up.
#[derive(Debug)]
pub struct FoundManifest {
    pub directory: String,
    pub config: MonorepoConfig,
}

/// Whether place `i` holds the nearest manifest of a workspace.
pub open spec fn nearest_workspace(found: Seq<FoundManifest>, i: int) -> bool {
    &&& 0 <= i < found.len()
    &&& found[i].config.workspace is Some
    &&& forall|j: int| 0 <= j < i ==> (#[trigger] found[j]).config.workspace is None
}

/// Whether no manifest is that of a workspace, and place `i` holds the nearest
/// one of a package.
pub open spec fn nearest_package(found: Seq<FoundManifest>, i: int) -> bool {
    &&& 0 <= i < found.len()
    &&& found[i].config.package is Some
    &&& forall|j: int| 0 <= j < i ==> (#[trigger] found[j]).config.package is None
    &&& forall|j: int| 0 <= j < found.len() ==> (#[trigger] found[j]).config.workspace is None
}

/// The complaint about a manifest that is both.
pub open spec fn ambiguous_root(directory: Seq<char>) -> WorkspaceFault {
    invalid_manifest(
        manifest_path(directory),
        "a root manifest cannot declare both [workspace] and [package]"@,
    )
}

/// The manifest that decides, of those found from the nearest directory up: the
/// nearest workspace wins, even over a nearer package, and without any the
/// nearest package stands alone.
pub fn choose_root(start: &str, found: &Vec<FoundManifest>) -> (r: Result<
    (usize, ScopeKind),
    WorkspaceError,
>)
    ensures
        match r {
            Ok((i, ScopeKind::Workspace)) => nearest_workspace(found@, i as int)
                && found@[i as int].config.package is None,
            Ok((i, ScopeKind::Standalone)) => nearest_package(found@, i as int),
            Err(e) => {
                ||| exists|i: int|
                    #[trigger] nearest_workspace(found@, i) && found@[i].config.package is Some
                        && e@ == ambiguous_root(found@[i].directory@)
                ||| e@ == (WorkspaceFault::MissingRoot { start: start@ }) && forall|j: int|
                    0 <= j < found@.len() ==> (#[trigger] found@[j]).config.workspace is None
                        && found@[j].config.package is None
            },
        },
{
    let mut i: usize = 0;
    let mut package: Option<usize> = None;
    while i < found.len()
        invariant
            i <= found@.len(),
            forall|j: int| 0 <= j < i ==> (#[trigger] found@[j]).config.workspace is None,
            match package {
                Some(p) => p < i && found@[p as int].config.package is Some && forall|j: int|
                    0 <= j < p ==> (#[trigger] found@[j]).config.package is None,
                None => forall|j: int|
                    0 <= j < i ==> (#[trigger] found@[j]).config.package is None,
            },
        decreases found.len() - i,
    {
        if found[i].config.workspace.is_some() {
            assert(nearest_workspace(found@, i as int));
            if found[i].config.package.is_some() {
                return Err(
                    WorkspaceError::InvalidManifest {
                        path: config_path(found[i].directory.as_str()),
                        message:
                            "a root manifest cannot declare both [workspace] and [package]".to_owned(),
                    },
                );
            }
            return Ok((i, ScopeKind::Workspace));
        }
        if package.is_none() && found[i].config.package.is_some() {
            package = Some(i);
        }
        i += 1;
    }
    match package {
        Some(p) => Ok((p, ScopeKind::Standalone)),
        None => Err(WorkspaceError::MissingRoot { start: start.to_owned() }),
    }
}

} // verus!
