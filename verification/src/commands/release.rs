//! Provider-neutral release artifact commands.

use vstd::prelude::*;
use vstd::string::StringExecFns;

use crate::io::IoError;
use crate::release::{
    answer_view, checksums_text, create_manifest, created_manifest, release_fault_text,
    render_checksums, source_problem, verified, verify_manifest, verify_source, FoundEntry,
    ManifestView, MetadataRead, ReleaseError, ReleaseFault, ReleaseIdentity, ReleaseManifest,
};
use crate::text::{decimal, number, optional_text};

verus! {

/// Default directory holding the release artifacts and their metadata.
pub const DEFAULT_DIRECTORY: &'static str = "dist";

/// What can go wrong with a release command.
#[derive(Debug, PartialEq, Eq)]
pub enum ReleaseCommandError {
    Release(ReleaseError),
}

impl View for ReleaseCommandError {
    type V = ReleaseFault;

    open spec fn view(&self) -> ReleaseFault {
        match *self {
            ReleaseCommandError::Release(error) => error@,
        }
    }
}

impl ReleaseCommandError {
    /// The text that reports the error.
    pub fn message(&self) -> (r: String)
        ensures
            r@ == release_fault_text(self@),
    {
        match self {
            ReleaseCommandError::Release(error) => error.message(),
        }
    }

    /// The text of the failure that this one wraps.
    pub fn source(&self) -> (r: Option<String>)
        ensures
            optional_text(r) == Some(release_fault_text(self@)),
    {
        Some(self.message())
    }
}

/// A release manifest to write, with its list of checksums.
#[derive(Debug, PartialEq, Eq)]
pub struct ManifestOutput {
    pub manifest: ReleaseManifest,
    pub checksums: String,
    pub message: String,
}

/// The manifest of a directory, and the message about it.
pub fn manifest(
    directory: &str,
    is_directory: bool,
    entries: &Vec<FoundEntry>,
    identity: ReleaseIdentity,
) -> (r: Result<ManifestOutput, ReleaseCommandError>)
    ensures
        match r {
            Ok(output) => {
                &&& created_manifest(directory@, is_directory, entries@, identity@) == Ok::<
                    ManifestView,
                    ReleaseFault,
                >(output.manifest@)
                &&& output.checksums@ == checksums_text(output.manifest@.artifacts)
                &&& output.message@ == "wrote release manifest for "@ + decimal(
                    output.manifest@.artifacts.len(),
                ) + " artifact(s) in "@ + directory@
            },
            Err(e) => created_manifest(directory@, is_directory, entries@, identity@) == Err::<
                ManifestView,
                ReleaseFault,
            >(e@),
        },
{
    match create_manifest(directory, is_directory, entries, identity) {
        Err(e) => Err(ReleaseCommandError::Release(e)),
        Ok(manifest) => {
            let mut message = "wrote release manifest for ".to_owned();
            message.append(number(manifest.artifacts.len() as u128).as_str());
            message.append(" artifact(s) in ");
            message.append(directory);
            let checksums = render_checksums(&manifest.artifacts);
            Ok(ManifestOutput { manifest, checksums, message })
        },
    }
}

/// Verify where a release comes from.
pub fn source(
    tag: &str,
    expected_commit: &str,
    checkout: Result<String, ReleaseError>,
    tagged: Result<String, ReleaseError>,
) -> (r: Result<String, ReleaseCommandError>)
    ensures
        match r {
            Ok(message) => source_problem(
                tag@,
                expected_commit@,
                answer_view(checkout),
                answer_view(tagged),
            ) is None && message@ == "verified release source "@ + tag@ + " at "@
                + expected_commit@,
            Err(e) => source_problem(
                tag@,
                expected_commit@,
                answer_view(checkout),
                answer_view(tagged),
            ) == Some(e@),
        },
{
    match verify_source(tag, expected_commit, checkout, tagged) {
        Err(e) => Err(ReleaseCommandError::Release(e)),
        Ok(_) => {
            let mut message = "verified release source ".to_owned();
            message.append(tag);
            message.append(" at ");
            message.append(expected_commit);
            Ok(message)
        },
    }
}

/// Verify the files of a release.
pub fn verify(
    directory: &str,
    metadata: MetadataRead,
    expected: &ReleaseIdentity,
    is_directory: bool,
    entries: &Vec<FoundEntry>,
    checksums: &Result<String, IoError>,
) -> (r: Result<String, ReleaseCommandError>)
    ensures
        match r {
            Ok(message) => verified(
                directory@,
                metadata,
                expected@,
                is_directory,
                entries@,
                *checksums,
            ) matches Ok(manifest) && message@ == "verified release manifest for "@ + decimal(
                manifest.artifacts.len(),
            ) + " artifact(s) in "@ + directory@,
            Err(e) => verified(
                directory@,
                metadata,
                expected@,
                is_directory,
                entries@,
                *checksums,
            ) == Err::<ManifestView, ReleaseFault>(e@),
        },
{
    match verify_manifest(directory, metadata, expected, is_directory, entries, checksums) {
        Err(e) => Err(ReleaseCommandError::Release(e)),
        Ok(manifest) => {
            let mut message = "verified release manifest for ".to_owned();
            message.append(number(manifest.artifacts.len() as u128).as_str());
            message.append(" artifact(s) in ");
            message.append(directory);
            Ok(message)
        },
    }
}

} // verus!
