//! What a failed operation means on the platform it failed on.

use vstd::prelude::*;

use crate::io::{IoError, IoErrorKind};

verus! {

/// Whether a failed process-tree termination should be read as "the tree had
/// already exited" rather than as an error.
///
/// Ending a process group can lose a race with a short-lived child on macOS,
/// which denies permission for a group that no longer exists. On other
/// platforms a termination failure is always a real failure.
pub fn termination_failure_means_already_exited(kind: IoErrorKind, macos: bool) -> (r: bool)
    ensures
        r == (macos && kind == IoErrorKind::PermissionDenied),
{
    macos && kind == IoErrorKind::PermissionDenied
}

/// What ending a process tree comes to, given whether its first process is
/// known to be gone: a tree that had already exited is no failure.
pub fn termination_outcome(killed: Result<(), IoError>, exited: bool, macos: bool) -> (r: Result<
    (),
    IoError,
>)
    ensures
        match r {
            Ok(_) => killed matches Err(error) ==> exited || (macos && error.kind
                == IoErrorKind::PermissionDenied),
            Err(e) => killed == Err::<(), IoError>(e) && !exited && !(macos && e.kind
                == IoErrorKind::PermissionDenied),
        },
{
    match killed {
        Ok(_) => Ok(()),
        Err(error) => {
            if exited || termination_failure_means_already_exited(error.kind, macos) {
                Ok(())
            } else {
                Err(error)
            }
        },
    }
}

} // verus!
