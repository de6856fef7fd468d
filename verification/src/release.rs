//! Provider-neutral release artifact manifests and verification.
//!
//! This module handles files, hashes, and explicit release identity only. It
//! does not publish anything, execute artifacts, inspect registries, or assume
//! a language, package manager, or CI provider.

use vstd::prelude::*;
use vstd::string::StringExecFns;

use crate::cache::hash::{file_digest, hex, sha256_of};
use crate::cache::pattern::EntryKind;
use crate::commands::changelog::{lossy, lossy_text, GitOutput};
use crate::io::{IoError, IoErrorView};
use crate::map::{inserted, keys, lookup, sorted, TextMap};
use crate::path::{
    absolute, below, climbs, components, has_parent, is_absolute, is_below, join_path, join_paths,
    path_components,
};
use crate::project::matrix::{
    lemma_text_entries_inserted, lemma_text_entries_lookup, text_entries, Dimensions,
};
use crate::text::{
    chars_of, copy_optional, decimal, has_char, join, join_texts, lines, lines_text, number,
    optional_text, precedes, same, split_once, split_once_text, text_le, text_lt, text_of, texts,
    trim, trim_text,
};

verus! {

pub const METADATA_FILE_NAME: &'static str = "BUILD-METADATA.json";

pub const CHECKSUMS_FILE_NAME: &'static str = "SHA256SUMS";

pub const MANIFEST_VERSION: u32 = 1;

/// What a release is, as far as it is said.
#[derive(Debug, Clone, PartialEq, Eq)]
pub struct ReleaseIdentity {
    pub repository: Option<String>,
    pub release_tag: Option<String>,
    pub source_commit: Option<String>,
    pub workflow_run: Option<String>,
}

/// What a `ReleaseIdentity` says.
pub struct IdentityView {
    pub repository: Option<Seq<char>>,
    pub release_tag: Option<Seq<char>>,
    pub source_commit: Option<Seq<char>>,
    pub workflow_run: Option<Seq<char>>,
}

impl View for ReleaseIdentity {
    type V = IdentityView;

    open spec fn view(&self) -> IdentityView {
        IdentityView {
            repository: optional_text(self.repository),
            release_tag: optional_text(self.release_tag),
            source_commit: optional_text(self.source_commit),
            workflow_run: optional_text(self.workflow_run),
        }
    }
}

impl ReleaseIdentity {
    /// An identity of which nothing is said.
    pub fn unknown() -> (r: ReleaseIdentity)
        ensures
            r@ == (IdentityView {
                repository: None,
                release_tag: None,
                source_commit: None,
                workflow_run: None,
            }),
    {
        ReleaseIdentity {
            repository: None,
            release_tag: None,
            source_commit: None,
            workflow_run: None,
        }
    }
}

/// A file of a release.
#[derive(Debug, Clone, PartialEq, Eq)]
pub struct Artifact {
    pub name: String,
    pub sha256: String,
    pub size: u64,
}

/// What an `Artifact` says.
pub struct ArtifactView {
    pub name: Seq<char>,
    pub sha256: Seq<char>,
    pub size: u64,
}

impl View for Artifact {
    type V = ArtifactView;

    open spec fn view(&self) -> ArtifactView {
        ArtifactView { name: self.name@, sha256: self.sha256@, size: self.size }
    }
}

/// What a list of artifacts says.
pub open spec fn artifact_views(artifacts: Seq<Artifact>) -> Seq<ArtifactView> {
    artifacts.map_values(|a: Artifact| a@)
}

/// The inventory of a release.
#[derive(Debug, Clone, PartialEq, Eq)]
pub struct ReleaseManifest {
    pub manifest_version: u32,
    pub repository: Option<String>,
    pub release_tag: Option<String>,
    pub source_commit: Option<String>,
    pub workflow_run: Option<String>,
    pub artifacts: Vec<Artifact>,
}

/// What a `ReleaseManifest` says.
pub struct ManifestView {
    pub manifest_version: u32,
    pub identity: IdentityView,
    pub artifacts: Seq<ArtifactView>,
}

impl View for ReleaseManifest {
    type V = ManifestView;

    open spec fn view(&self) -> ManifestView {
        ManifestView {
            manifest_version: self.manifest_version,
            identity: IdentityView {
                repository: optional_text(self.repository),
                release_tag: optional_text(self.release_tag),
                source_commit: optional_text(self.source_commit),
                workflow_run: optional_text(self.workflow_run),
            },
            artifacts: artifact_views(self.artifacts@),
        }
    }
}

impl ReleaseManifest {
    /// The identity of the release.
    pub fn identity(&self) -> (r: ReleaseIdentity)
        ensures
            r@ == self@.identity,
    {
        ReleaseIdentity {
            repository: copy_optional(&self.repository),
            release_tag: copy_optional(&self.release_tag),
            source_commit: copy_optional(&self.source_commit),
            workflow_run: copy_optional(&self.workflow_run),
        }
    }
}

/// What can go wrong with a release.
#[derive(Debug, PartialEq, Eq)]
pub enum ReleaseError {
    Read { path: String, source: IoError },
    Write { path: String, source: IoError },
    Command(String),
    Invalid(String),
}

/// What a `ReleaseError` says.
pub enum ReleaseFault {
    Read { path: Seq<char>, source: IoErrorView },
    Write { path: Seq<char>, source: IoErrorView },
    Command(Seq<char>),
    Invalid(Seq<char>),
}

impl View for ReleaseError {
    type V = ReleaseFault;

    open spec fn view(&self) -> ReleaseFault {
        match *self {
            ReleaseError::Read { path, source } => ReleaseFault::Read {
                path: path@,
                source: source@,
            },
            ReleaseError::Write { path, source } => ReleaseFault::Write {
                path: path@,
                source: source@,
            },
            ReleaseError::Command(message) => ReleaseFault::Command(message@),
            ReleaseError::Invalid(message) => ReleaseFault::Invalid(message@),
        }
    }
}

/// The text that reports a fault.
pub open spec fn release_fault_text(fault: ReleaseFault) -> Seq<char> {
    match fault {
        ReleaseFault::Read { path, source } => "failed to read "@ + path + ": "@ + source.message,
        ReleaseFault::Write { path, source } => "failed to write "@ + path + ": "@ + source.message,
        ReleaseFault::Command(message) => message,
        ReleaseFault::Invalid(message) => message,
    }
}

impl ReleaseError {
    /// The text that reports the error.
    pub fn message(&self) -> (r: String)
        ensures
            r@ == release_fault_text(self@),
    {
        match self {
            ReleaseError::Read { path, source } => {
                let mut text = "failed to read ".to_owned();
                text.append(path.as_str());
                text.append(": ");
                text.append(source.message.as_str());
                text
            },
            ReleaseError::Write { path, source } => {
                let mut text = "failed to write ".to_owned();
                text.append(path.as_str());
                text.append(": ");
                text.append(source.message.as_str());
                text
            },
            ReleaseError::Command(message) => message.clone(),
            ReleaseError::Invalid(message) => message.clone(),
        }
    }

    /// The text of the failure that this one wraps, where it wraps one.
    pub fn source(&self) -> (r: Option<String>)
        ensures
            optional_text(r) == (match self@ {
                ReleaseFault::Read { source, .. } => Some(source.message),
                ReleaseFault::Write { source, .. } => Some(source.message),
                _ => None,
            }),
    {
        match self {
            ReleaseError::Read { source, .. } => Some(source.message.clone()),
            ReleaseError::Write { source, .. } => Some(source.message.clone()),
            _ => None,
        }
    }
}

// ---------------------------------------------------------------------------
// The inventory
// ---------------------------------------------------------------------------
/// An entry that a walk through the artifact directory met.
#[derive(Debug)]
pub struct FoundEntry {
    /// Where the entry is.
    pub path: String,
    /// The same, seen from the artifact directory.
    pub relative: String,
    pub kind: EntryKind,
    /// What the entry holds, where it is a file.
    pub contents: Result<Vec<u8>, IoError>,
}

/// Whether a path component is a name.
pub open spec fn is_normal(component: Seq<char>) -> bool {
    component != "/"@ && component != "."@ && component != ".."@
}

/// What is wrong with the first of `count` components with which something is.
pub open spec fn component_problem(
    path: Seq<char>,
    parts: Seq<Seq<char>>,
    count: nat,
) -> Option<ReleaseFault>
    decreases count,
{
    if count == 0 {
        None
    } else {
        match component_problem(path, parts, (count - 1) as nat) {
            Some(fault) => Some(fault),
            None => {
                let part = parts[count - 1];
                if !is_normal(part) {
                    Some(
                        ReleaseFault::Invalid(
                            "release artifact path `"@ + path
                                + "` is not a normal relative path"@,
                        ),
                    )
                } else if part.contains('\n') || part.contains('\r') {
                    Some(
                        ReleaseFault::Invalid(
                            "release artifact path `"@ + path + "` contains a newline"@,
                        ),
                    )
                } else {
                    None
                }
            },
        }
    }
}

proof fn lemma_component_problem_stays(
    path: Seq<char>,
    parts: Seq<Seq<char>>,
    k: nat,
    count: nat,
)
    requires
        k <= count,
        component_problem(path, parts, k) is Some,
    ensures
        component_problem(path, parts, count) == component_problem(path, parts, k),
    decreases count,
{
    if k < count {
        lemma_component_problem_stays(path, parts, k, (count - 1) as nat);
    }
}

/// The name of the artifact at a path: its components with `/` between them.
pub open spec fn name_of(path: Seq<char>) -> Result<Seq<char>, ReleaseFault> {
    match component_problem(path, components(path), components(path).len()) {
        Some(fault) => Err(fault),
        None => Ok(join(components(path), "/"@)),
    }
}

/// The name of the artifact at a path.
pub fn relative_name(path: &str) -> (r: Result<String, ReleaseError>)
    ensures
        match r {
            Ok(name) => name_of(path@) == Ok::<Seq<char>, ReleaseFault>(name@),
            Err(e) => name_of(path@) == Err::<Seq<char>, ReleaseFault>(e@),
        },
{
    let parts = path_components(path);
    let ghost all = components(path@);
    let mut i: usize = 0;
    while i < parts.len()
        invariant
            i <= parts@.len(),
            texts(parts@) == all,
            all == components(path@),
            component_problem(path@, all, i as nat) is None,
        decreases parts.len() - i,
    {
        let part = parts[i].as_str();
        assert(all[i as int] == part@);
        if same(part, "/") || same(part, ".") || same(part, "..") {
            let mut message = "release artifact path `".to_owned();
            message.append(path);
            message.append("` is not a normal relative path");
            proof {
                lemma_component_problem_stays(path@, all, (i + 1) as nat, all.len());
            }
            return Err(ReleaseError::Invalid(message));
        }
        if has_char(part, '\n') || has_char(part, '\r') {
            let mut message = "release artifact path `".to_owned();
            message.append(path);
            message.append("` contains a newline");
            proof {
                lemma_component_problem_stays(path@, all, (i + 1) as nat, all.len());
            }
            return Err(ReleaseError::Invalid(message));
        }
        i += 1;
    }
    assert(parts@.len() == all.len());
    Ok(join_texts(&parts, "/"))
}

/// Whether a path is the path of one of the two files that are generated.
pub open spec fn is_generated(relative: Seq<char>) -> bool {
    components(relative) == seq![METADATA_FILE_NAME@] || components(relative)
        == seq![CHECKSUMS_FILE_NAME@]
}

/// The name under which an entry belongs to the release, where it does.
pub open spec fn entry_name(entry: FoundEntry) -> Result<Option<Seq<char>>, ReleaseFault> {
    match entry.kind {
        EntryKind::Symlink => Err(
            ReleaseFault::Invalid(
                "release artifact inventory cannot contain symlink "@ + entry.path@,
            ),
        ),
        EntryKind::Directory => Ok(None),
        EntryKind::File => if is_generated(entry.relative@) {
            Ok(None)
        } else {
            match name_of(entry.relative@) {
                Ok(name) => Ok(Some(name)),
                Err(fault) => Err(fault),
            }
        },
        EntryKind::Other => Err(
            ReleaseFault::Invalid("unsupported release artifact file type: "@ + entry.path@),
        ),
    }
}

fn generated(relative: &str) -> (r: bool)
    ensures
        r == is_generated(relative@),
{
    let parts = path_components(relative);
    let ghost all = components(relative@);
    assert(parts@.len() == all.len());
    if parts.len() != 1 {
        return false;
    }
    assert(all[0] == parts[0]@);
    let r: bool = same(parts[0].as_str(), METADATA_FILE_NAME) || same(
        parts[0].as_str(),
        CHECKSUMS_FILE_NAME,
    );
    proof {
        if parts[0]@ == METADATA_FILE_NAME@ {
            assert(all =~= seq![METADATA_FILE_NAME@]);
        }
        if parts[0]@ == CHECKSUMS_FILE_NAME@ {
            assert(all =~= seq![CHECKSUMS_FILE_NAME@]);
        }
        if all == seq![METADATA_FILE_NAME@] {
            assert(all[0] == METADATA_FILE_NAME@);
        }
        if all == seq![CHECKSUMS_FILE_NAME@] {
            assert(all[0] == CHECKSUMS_FILE_NAME@);
        }
    }
    r
}

/// The name under which an entry belongs to the release, where it does.
pub fn artifact_name(entry: &FoundEntry) -> (r: Result<Option<String>, ReleaseError>)
    ensures
        entry_name(*entry) == (match r {
            Ok(name) => Ok::<Option<Seq<char>>, ReleaseFault>(optional_text(name)),
            Err(e) => Err(e@),
        }),
{
    match entry.kind {
        EntryKind::Symlink => {
            let mut message = "release artifact inventory cannot contain symlink ".to_owned();
            message.append(entry.path.as_str());
            Err(ReleaseError::Invalid(message))
        },
        EntryKind::Directory => Ok(None),
        EntryKind::File => {
            if generated(entry.relative.as_str()) {
                return Ok(None);
            }
            match relative_name(entry.relative.as_str()) {
                Ok(name) => Ok(Some(name)),
                Err(e) => Err(e),
            }
        },
        EntryKind::Other => {
            let mut message = "unsupported release artifact file type: ".to_owned();
            message.append(entry.path.as_str());
            Err(ReleaseError::Invalid(message))
        },
    }
}

/// The places of the files among the first `count` entries, each at its place
/// in the order of their names.
pub open spec fn inventory(entries: Seq<FoundEntry>, count: nat) -> Result<
    Seq<(Seq<char>, int)>,
    ReleaseFault,
>
    decreases count,
{
    if count == 0 {
        Ok(Seq::empty())
    } else {
        match inventory(entries, (count - 1) as nat) {
            Err(fault) => Err(fault),
            Ok(earlier) => match entry_name(entries[count - 1]) {
                Err(fault) => Err(fault),
                Ok(None) => Ok(earlier),
                Ok(Some(name)) => Ok(placed(earlier, name, count - 1)),
            },
        }
    }
}

/// `files` with one more, behind all whose names do not come after its own.
pub open spec fn placed(files: Seq<(Seq<char>, int)>, name: Seq<char>, place: int) -> Seq<
    (Seq<char>, int),
>
    decreases files.len(),
{
    if files.len() == 0 {
        seq![(name, place)]
    } else if text_le(files[0].0, name) {
        seq![files[0]] + placed(files.drop_first(), name, place)
    } else {
        seq![(name, place)] + files
    }
}

proof fn lemma_placed(files: Seq<(Seq<char>, int)>, name: Seq<char>, place: int, at: int)
    requires
        0 <= at <= files.len(),
        forall|k: int| 0 <= k < at ==> text_le(#[trigger] files[k].0, name),
        at < files.len() ==> !text_le(files[at].0, name),
    ensures
        placed(files, name, place) == files.insert(at, (name, place)),
    decreases at,
{
    if at == 0 {
        assert(placed(files, name, place) =~= files.insert(0, (name, place)));
    } else {
        let rest = files.drop_first();
        assert(text_le(files[0].0, name));
        assert forall|k: int| 0 <= k < at - 1 implies text_le(#[trigger] rest[k].0, name) by {
            assert(rest[k] == files[k + 1]);
        }
        lemma_placed(rest, name, place, at - 1);
        assert(placed(files, name, place) =~= files.insert(at, (name, place)));
    }
}

proof fn lemma_inventory_error_stays(entries: Seq<FoundEntry>, k: nat, count: nat)
    requires
        k <= count,
        inventory(entries, k) is Err,
    ensures
        inventory(entries, count) == inventory(entries, k),
    decreases count,
{
    if k < count {
        lemma_inventory_error_stays(entries, k, (count - 1) as nat);
    }
}

/// What a list of placed names says.
pub open spec fn placed_views(files: Seq<(String, usize)>) -> Seq<(Seq<char>, int)> {
    files.map_values(|f: (String, usize)| (f.0@, f.1 as int))
}

fn take_inventory(entries: &Vec<FoundEntry>) -> (r: Result<Vec<(String, usize)>, ReleaseError>)
    ensures
        match r {
            Ok(files) => inventory(entries@, entries@.len()) == Ok::<
                Seq<(Seq<char>, int)>,
                ReleaseFault,
            >(placed_views(files@)) && forall|k: int|
                0 <= k < files@.len() ==> (#[trigger] files@[k]).1 < entries@.len(),
            Err(e) => inventory(entries@, entries@.len()) == Err::<
                Seq<(Seq<char>, int)>,
                ReleaseFault,
            >(e@),
        },
{
    let mut files: Vec<(String, usize)> = Vec::new();
    assert(placed_views(files@) =~= Seq::empty());
    let mut i: usize = 0;
    while i < entries.len()
        invariant
            i <= entries@.len(),
            inventory(entries@, i as nat) == Ok::<Seq<(Seq<char>, int)>, ReleaseFault>(
                placed_views(files@),
            ),
            forall|k: int| 0 <= k < files@.len() ==> (#[trigger] files@[k]).1 < entries@.len(),
        decreases entries.len() - i,
    {
        match artifact_name(&entries[i]) {
            Err(e) => {
                proof {
                    lemma_inventory_error_stays(entries@, (i + 1) as nat, entries@.len());
                }
                return Err(e);
            },
            Ok(None) => {},
            Ok(Some(name)) => {
                let ghost before = placed_views(files@);
                let ghost held = files@;
                let mut at: usize = 0;
                while at < files.len() && !precedes(name.as_str(), files[at].0.as_str())
                    invariant
                        at <= files@.len(),
                        files@ == held,
                        before == placed_views(held),
                        forall|k: int| 0 <= k < at ==> text_le(#[trigger] before[k].0, name@),
                    decreases files.len() - at,
                {
                    assert(before[at as int].0 == files[at as int].0@);
                    proof {
                        crate::text::lemma_text_lt_total(name@, files[at as int].0@);
                    }
                    at += 1;
                }
                proof {
                    if at < files@.len() {
                        assert(before[at as int].0 == files[at as int].0@);
                        crate::text::lemma_text_lt_irreflexive(name@);
                        if text_lt(files[at as int].0@, name@) {
                            crate::text::lemma_text_lt_transitive(
                                name@,
                                files[at as int].0@,
                                name@,
                            );
                        }
                    }
                    lemma_placed(before, name@, i as int, at as int);
                }
                let ghost spec_name = name@;
                files.insert(at, (name, i));
                assert(placed_views(files@) =~= before.insert(at as int, (spec_name, i as int)));
                assert forall|k: int| 0 <= k < files@.len() implies (#[trigger] files@[k]).1
                    < entries@.len() by {
                    if k < at {
                        assert(files@[k] == held[k]);
                    } else if k > at {
                        assert(files@[k] == held[k - 1]);
                    }
                }
            },
        }
        i += 1;
    }
    Ok(files)
}

/// The artifacts at the first `count` places.
pub open spec fn artifacts_at(
    entries: Seq<FoundEntry>,
    files: Seq<(Seq<char>, int)>,
    count: nat,
) -> Result<Seq<ArtifactView>, ReleaseFault>
    decreases count,
{
    if count == 0 {
        Ok(Seq::empty())
    } else {
        match artifacts_at(entries, files, (count - 1) as nat) {
            Err(fault) => Err(fault),
            Ok(earlier) => {
                let entry = entries[files[count - 1].1];
                match entry.contents {
                    Err(source) => Err(
                        ReleaseFault::Read { path: entry.path@, source: source@ },
                    ),
                    Ok(contents) => Ok(
                        earlier.push(
                            ArtifactView {
                                name: files[count - 1].0,
                                sha256: hex(sha256_of(contents@)),
                                size: contents@.len() as u64,
                            },
                        ),
                    ),
                }
            },
        }
    }
}

proof fn lemma_artifacts_error_stays(
    entries: Seq<FoundEntry>,
    files: Seq<(Seq<char>, int)>,
    k: nat,
    count: nat,
)
    requires
        k <= count,
        artifacts_at(entries, files, k) is Err,
    ensures
        artifacts_at(entries, files, count) == artifacts_at(entries, files, k),
    decreases count,
{
    if k < count {
        lemma_artifacts_error_stays(entries, files, k, (count - 1) as nat);
    }
}

/// The artifacts of a directory, in the order of their names.
pub open spec fn collected_artifacts(
    directory: Seq<char>,
    is_directory: bool,
    entries: Seq<FoundEntry>,
) -> Result<Seq<ArtifactView>, ReleaseFault> {
    if !is_directory {
        Err(
            ReleaseFault::Invalid(
                "artifact directory "@ + directory + " does not exist or is not a directory"@,
            ),
        )
    } else {
        match inventory(entries, entries.len()) {
            Err(fault) => Err(fault),
            Ok(files) => artifacts_at(entries, files, files.len()),
        }
    }
}

/// Whether a text is a digest in lower-case hexadecimal digits.
pub open spec fn is_digest(text: Seq<char>) -> bool {
    text.len() == 64 && forall|i: int| 0 <= i < text.len() ==> is_lower_hex(#[trigger] text[i])
}

pub open spec fn is_lower_hex(c: char) -> bool {
    ('0' <= c && c <= '9') || ('a' <= c && c <= 'f')
}

fn digest_of(contents: &Vec<u8>) -> (r: String)
    ensures
        r@ == hex(sha256_of(contents@)),
        is_digest(r@),
{
    let digest = crate::cache::hash::sha256(contents);
    proof {
        lemma_hex_digits(digest@);
    }
    crate::cache::hash::hex_digest(&digest)
}

proof fn lemma_hex_digits(bytes: Seq<u8>)
    ensures
        hex(bytes).len() == 2 * bytes.len(),
        forall|i: int| 0 <= i < hex(bytes).len() ==> is_lower_hex(#[trigger] hex(bytes)[i]),
    decreases bytes.len(),
{
    if bytes.len() > 0 {
        let front = hex(bytes.drop_last());
        lemma_hex_digits(bytes.drop_last());
        let all = hex(bytes);
        assert forall|i: int| 0 <= i < all.len() implies is_lower_hex(#[trigger] all[i]) by {
            if i < front.len() {
                assert(all[i] == front[i]);
            }
        }
    }
}

fn collect_artifacts(directory: &str, is_directory: bool, entries: &Vec<FoundEntry>) -> (r: Result<
    Vec<Artifact>,
    ReleaseError,
>)
    ensures
        match r {
            Ok(artifacts) => collected_artifacts(directory@, is_directory, entries@) == Ok::<
                Seq<ArtifactView>,
                ReleaseFault,
            >(artifact_views(artifacts@)) && forall|k: int|
                0 <= k < artifacts@.len() ==> is_digest((#[trigger] artifacts@[k]).sha256@),
            Err(e) => collected_artifacts(directory@, is_directory, entries@) == Err::<
                Seq<ArtifactView>,
                ReleaseFault,
            >(e@),
        },
{
    if !is_directory {
        let mut message = "artifact directory ".to_owned();
        message.append(directory);
        message.append(" does not exist or is not a directory");
        return Err(ReleaseError::Invalid(message));
    }
    let files = match take_inventory(entries) {
        Ok(files) => files,
        Err(e) => {
            return Err(e);
        },
    };
    let ghost all = placed_views(files@);
    let mut artifacts: Vec<Artifact> = Vec::new();
    assert(artifact_views(artifacts@) =~= Seq::empty());
    let mut i: usize = 0;
    while i < files.len()
        invariant
            i <= files@.len(),
            all == placed_views(files@),
            inventory(entries@, entries@.len()) == Ok::<Seq<(Seq<char>, int)>, ReleaseFault>(all),
            is_directory,
            forall|k: int| 0 <= k < files@.len() ==> (#[trigger] files@[k]).1 < entries@.len(),
            artifacts_at(entries@, all, i as nat) == Ok::<Seq<ArtifactView>, ReleaseFault>(
                artifact_views(artifacts@),
            ),
            forall|k: int|
                0 <= k < artifacts@.len() ==> is_digest((#[trigger] artifacts@[k]).sha256@),
        decreases files.len() - i,
    {
        let ghost before = artifact_views(artifacts@);
        assert(all[i as int] == (files[i as int].0@, files[i as int].1 as int));
        let entry = &entries[files[i].1];
        match &entry.contents {
            Err(source) => {
                proof {
                    lemma_artifacts_error_stays(entries@, all, (i + 1) as nat, all.len());
                }
                return Err(
                    ReleaseError::Read { path: entry.path.clone(), source: source.copy() },
                );
            },
            Ok(contents) => {
                let artifact = Artifact {
                    name: files[i].0.clone(),
                    sha256: digest_of(contents),
                    size: contents.len() as u64,
                };
                artifacts.push(artifact);
                assert(artifact_views(artifacts@) =~= before.push(artifact@));
            },
        }
        i += 1;
    }
    Ok(artifacts)
}

// ---------------------------------------------------------------------------
// Writing a manifest
// ---------------------------------------------------------------------------
/// The line of an artifact in the list of checksums.
pub open spec fn checksum_line(artifact: ArtifactView) -> Seq<char> {
    artifact.sha256 + "  "@ + artifact.name
}

/// The list of checksums.
pub open spec fn checksums_text(artifacts: Seq<ArtifactView>) -> Seq<char> {
    join(artifacts.map_values(|a: ArtifactView| checksum_line(a)), "\n"@) + "\n"@
}

/// The list of checksums.
pub fn render_checksums(artifacts: &Vec<Artifact>) -> (r: String)
    ensures
        r@ == checksums_text(artifact_views(artifacts@)),
{
    let ghost all = artifact_views(artifacts@).map_values(|a: ArtifactView| checksum_line(a));
    let mut rows: Vec<String> = Vec::new();
    assert(texts(rows@) =~= all.take(0));
    let mut i: usize = 0;
    while i < artifacts.len()
        invariant
            i <= artifacts@.len(),
            all == artifact_views(artifacts@).map_values(|a: ArtifactView| checksum_line(a)),
            texts(rows@) == all.take(i as int),
        decreases artifacts.len() - i,
    {
        let ghost before = texts(rows@);
        let mut row = artifacts[i].sha256.clone();
        row.append("  ");
        row.append(artifacts[i].name.as_str());
        assert(row@ == all[i as int]);
        rows.push(row);
        assert(texts(rows@) =~= before.push(row@));
        i += 1;
        assert(texts(rows@) =~= all.take(i as int));
    }
    assert(all.take(i as int) =~= all);
    let mut text = join_texts(&rows, "\n");
    text.append("\n");
    text
}

/// A manifest for a directory.
pub open spec fn created_manifest(
    directory: Seq<char>,
    is_directory: bool,
    entries: Seq<FoundEntry>,
    identity: IdentityView,
) -> Result<ManifestView, ReleaseFault> {
    match collected_artifacts(directory, is_directory, entries) {
        Err(fault) => Err(fault),
        Ok(artifacts) => if artifacts.len() == 0 {
            Err(
                ReleaseFault::Invalid(
                    "artifact directory "@ + directory + " contains no release artifacts"@,
                ),
            )
        } else {
            Ok(ManifestView { manifest_version: MANIFEST_VERSION, identity, artifacts })
        },
    }
}

/// Create a manifest from every regular file that was found below `directory`.
/// The two generated files themselves are excluded from the inventory.
pub fn create_manifest(
    directory: &str,
    is_directory: bool,
    entries: &Vec<FoundEntry>,
    identity: ReleaseIdentity,
) -> (r: Result<ReleaseManifest, ReleaseError>)
    ensures
        match r {
            Ok(manifest) => created_manifest(directory@, is_directory, entries@, identity@)
                == Ok::<ManifestView, ReleaseFault>(manifest@) && forall|k: int|
                0 <= k < manifest.artifacts@.len() ==> is_digest(
                    (#[trigger] manifest.artifacts@[k]).sha256@,
                ),
            Err(e) => created_manifest(directory@, is_directory, entries@, identity@) == Err::<
                ManifestView,
                ReleaseFault,
            >(e@),
        },
{
    let artifacts = match collect_artifacts(directory, is_directory, entries) {
        Ok(artifacts) => artifacts,
        Err(e) => {
            return Err(e);
        },
    };
    if artifacts.len() == 0 {
        let mut message = "artifact directory ".to_owned();
        message.append(directory);
        message.append(" contains no release artifacts");
        return Err(ReleaseError::Invalid(message));
    }
    Ok(
        ReleaseManifest {
            manifest_version: MANIFEST_VERSION,
            repository: identity.repository,
            release_tag: identity.release_tag,
            source_commit: identity.source_commit,
            workflow_run: identity.workflow_run,
            artifacts,
        },
    )
}

// ---------------------------------------------------------------------------
// Reading checksums
// ---------------------------------------------------------------------------
pub open spec fn is_hex(c: char) -> bool {
    is_lower_hex(c) || ('A' <= c && c <= 'F')
}

/// Whether a text is a digest in hexadecimal digits.
pub open spec fn is_any_digest(text: Seq<char>) -> bool {
    text.len() == 64 && forall|i: int| 0 <= i < text.len() ==> is_hex(#[trigger] text[i])
}

/// An ASCII letter in lower case.
pub open spec fn lower(c: char) -> char {
    if 'A' <= c && c <= 'Z' {
        ((c as u32) + 32) as char
    } else {
        c
    }
}

/// A text with its ASCII letters in lower case.
pub open spec fn lowered(text: Seq<char>) -> Seq<char> {
    text.map_values(|c: char| lower(c))
}

/// `name` without a leading `*`.
pub open spec fn without_star(name: Seq<char>) -> Seq<char> {
    if name.len() > 0 && name[0] == '*' {
        name.skip(1)
    } else {
        name
    }
}

/// Whether a checksum may be listed for a file of that name.
pub open spec fn is_listable(name: Seq<char>) -> bool {
    name.len() > 0 && !name.contains('\n') && !name.contains('\r') && !is_absolute(name)
        && !has_parent(name)
}

/// A message about a line of a file.
pub open spec fn at_line(path: Seq<char>, line: nat, message: Seq<char>) -> ReleaseFault {
    ReleaseFault::Invalid(path + ":"@ + decimal(line) + ": "@ + message)
}

/// What a line says: nothing, or the digest of a file.
pub open spec fn checksum_of_line(path: Seq<char>, line: Seq<char>, count: nat) -> Result<
    Option<(Seq<char>, Seq<char>)>,
    ReleaseFault,
> {
    if trim(line).len() == 0 {
        Ok(None)
    } else {
        match split_once(line, "  "@) {
            None => Err(at_line(path, count, "expected `<sha256>  <file>`"@)),
            Some((digest, name)) => if !is_any_digest(digest) {
                Err(at_line(path, count, "invalid SHA-256 digest"@))
            } else if !is_listable(without_star(name)) {
                Err(at_line(path, count, "invalid artifact name"@))
            } else {
                Ok(Some((without_star(name), lowered(digest))))
            },
        }
    }
}

/// What the first `count` lines say.
pub open spec fn checksums_of_lines(path: Seq<char>, all: Seq<Seq<char>>, count: nat) -> Result<
    Dimensions,
    ReleaseFault,
>
    decreases count,
{
    if count == 0 {
        Ok(Seq::empty())
    } else {
        match checksums_of_lines(path, all, (count - 1) as nat) {
            Err(fault) => Err(fault),
            Ok(earlier) => match checksum_of_line(path, all[count - 1], count) {
                Err(fault) => Err(fault),
                Ok(None) => Ok(earlier),
                Ok(Some((name, digest))) => if lookup(earlier, name) is Some {
                    Err(at_line(path, count, "duplicate artifact name `"@ + name + "`"@))
                } else {
                    Ok(inserted(earlier, name, digest))
                },
            },
        }
    }
}

/// The checksums that a file lists.
pub open spec fn checksums_of(path: Seq<char>, read: Result<String, IoError>) -> Result<
    Dimensions,
    ReleaseFault,
> {
    match read {
        Err(source) => Err(ReleaseFault::Read { path, source: source@ }),
        Ok(text) => match checksums_of_lines(path, lines(text@), lines(text@).len()) {
            Err(fault) => Err(fault),
            Ok(entries) => if entries.len() == 0 {
                Err(ReleaseFault::Invalid(path + " lists no artifacts"@))
            } else {
                Ok(entries)
            },
        },
    }
}

proof fn lemma_checksums_error_stays(path: Seq<char>, all: Seq<Seq<char>>, k: nat, count: nat)
    requires
        k <= count,
        checksums_of_lines(path, all, k) is Err,
    ensures
        checksums_of_lines(path, all, count) == checksums_of_lines(path, all, k),
    decreases count,
{
    if k < count {
        lemma_checksums_error_stays(path, all, k, (count - 1) as nat);
    }
}

fn hex_digit_char(c: char) -> (r: bool)
    ensures
        r == is_hex(c),
{
    ('0' <= c && c <= '9') || ('a' <= c && c <= 'f') || ('A' <= c && c <= 'F')
}

fn any_digest(text: &str) -> (r: bool)
    ensures
        r == is_any_digest(text@),
{
    let chars = chars_of(text);
    if chars.len() != 64 {
        return false;
    }
    let mut i: usize = 0;
    while i < chars.len()
        invariant
            i <= chars@.len(),
            chars@ == text@,
            forall|k: int| 0 <= k < i ==> is_hex(#[trigger] text@[k]),
        decreases chars.len() - i,
    {
        if !hex_digit_char(chars[i]) {
            assert(!is_hex(text@[i as int]));
            return false;
        }
        i += 1;
    }
    true
}

fn lower_char(c: char) -> (r: char)
    ensures
        r == lower(c),
{
    if 'A' <= c && c <= 'Z' {
        let code: u8 = (c as u32) as u8;
        (code + 32) as char
    } else {
        c
    }
}

fn lower_text(text: &str) -> (r: String)
    ensures
        r@ == lowered(text@),
{
    let chars = chars_of(text);
    let mut out = String::new();
    let mut i: usize = 0;
    while i < chars.len()
        invariant
            i <= chars@.len(),
            chars@ == text@,
            out@ == lowered(text@).take(i as int),
        decreases chars.len() - i,
    {
        out.push(lower_char(chars[i]));
        i += 1;
        assert(out@ =~= lowered(text@).take(i as int));
    }
    assert(lowered(text@).take(i as int) =~= lowered(text@));
    out
}

fn line_failure(path: &str, line: usize, message: &str) -> (r: ReleaseError)
    ensures
        r@ == at_line(path@, line as nat, message@),
{
    let mut text = path.to_owned();
    text.append(":");
    text.append(number(line as u128).as_str());
    text.append(": ");
    text.append(message);
    ReleaseError::Invalid(text)
}

fn read_checksum_line(path: &str, line: &str, count: usize) -> (r: Result<
    Option<(String, String)>,
    ReleaseError,
>)
    ensures
        checksum_of_line(path@, line@, count as nat) == (match r {
            Ok(Some((name, digest))) => Ok::<Option<(Seq<char>, Seq<char>)>, ReleaseFault>(
                Some((name@, digest@)),
            ),
            Ok(None) => Ok(None),
            Err(e) => Err(e@),
        }),
{
    if chars_of(trim_text(line).as_str()).len() == 0 {
        return Ok(None);
    }
    match split_once_text(line, "  ") {
        None => Err(line_failure(path, count, "expected `<sha256>  <file>`")),
        Some((digest, listed)) => {
            if !any_digest(digest.as_str()) {
                return Err(line_failure(path, count, "invalid SHA-256 digest"));
            }
            let chars = chars_of(listed.as_str());
            let from: usize = if chars.len() > 0 && chars[0] == '*' {
                1
            } else {
                0
            };
            let name = text_of(&chars, from, chars.len());
            assert(name@ =~= without_star(listed@));
            if chars_of(name.as_str()).len() == 0 || has_char(name.as_str(), '\n') || has_char(
                name.as_str(),
                '\r',
            ) || absolute(name.as_str()) || climbs(name.as_str()) {
                return Err(line_failure(path, count, "invalid artifact name"));
            }
            Ok(Some((name, lower_text(digest.as_str()))))
        },
    }
}

/// The checksums that a file lists.
pub fn read_checksums(path: &str, read: &Result<String, IoError>) -> (r: Result<
    TextMap<String>,
    ReleaseError,
>)
    ensures
        match r {
            Ok(entries) => checksums_of(path@, *read) == Ok::<Dimensions, ReleaseFault>(
                text_entries(entries@),
            ),
            Err(e) => checksums_of(path@, *read) == Err::<Dimensions, ReleaseFault>(e@),
        },
{
    let text = match read {
        Err(source) => {
            return Err(ReleaseError::Read { path: path.to_owned(), source: source.copy() });
        },
        Ok(text) => text,
    };
    let rows = lines_text(text.as_str());
    let ghost all = lines(text@);
    assert(rows@.len() == all.len());
    let mut entries: TextMap<String> = TextMap::new();
    assert(text_entries(entries@) =~= Seq::empty());
    let mut i: usize = 0;
    while i < rows.len()
        invariant
            i <= rows@.len(),
            rows@.len() == all.len(),
            *read matches Ok(t) && t@ == text@,
            all == lines(text@),
            texts(rows@) == all,
            checksums_of_lines(path@, all, i as nat) == Ok::<Dimensions, ReleaseFault>(
                text_entries(entries@),
            ),
        decreases rows.len() - i,
    {
        assert(all[i as int] == rows[i as int]@);
        match read_checksum_line(path, rows[i].as_str(), i + 1) {
            Err(e) => {
                proof {
                    lemma_checksums_error_stays(path@, all, (i + 1) as nat, all.len());
                }
                return Err(e);
            },
            Ok(None) => {},
            Ok(Some((name, digest))) => {
                proof {
                    lemma_text_entries_lookup(entries@, name@);
                    lemma_text_entries_inserted(entries@, name@, digest);
                }
                if entries.contains_key(name.as_str()) {
                    let mut message = "duplicate artifact name `".to_owned();
                    message.append(name.as_str());
                    message.append("`");
                    proof {
                        lemma_checksums_error_stays(path@, all, (i + 1) as nat, all.len());
                    }
                    return Err(line_failure(path, i + 1, message.as_str()));
                }
                entries.insert(name, digest);
            },
        }
        i += 1;
    }
    if entries.is_empty() {
        let mut message = path.to_owned();
        message.append(" lists no artifacts");
        return Err(ReleaseError::Invalid(message));
    }
    Ok(entries)
}

/// What was found of a file that has a checksum.
#[derive(Debug)]
pub struct ChecksumProbe {
    pub kind: Result<EntryKind, IoError>,
    pub contents: Result<Vec<u8>, IoError>,
}

/// What is wrong with a file that has a checksum.
pub open spec fn checksum_problem(
    directory: Seq<char>,
    name: Seq<char>,
    expected: Seq<char>,
    probe: ChecksumProbe,
) -> Option<ReleaseFault> {
    let path = join_path(directory, name);
    if !is_below(path, directory) {
        Some(
            ReleaseFault::Invalid(
                "checksum entry `"@ + name + "` escapes the artifact directory"@,
            ),
        )
    } else {
        match probe.kind {
            Err(source) => Some(ReleaseFault::Read { path, source: source@ }),
            Ok(kind) => if kind != EntryKind::File {
                Some(
                    ReleaseFault::Invalid("checksum entry `"@ + name + "` is not a regular file"@),
                )
            } else {
                match probe.contents {
                    Err(source) => Some(ReleaseFault::Read { path, source: source@ }),
                    Ok(contents) => {
                        let actual = hex(sha256_of(contents@));
                        if actual != expected {
                            Some(
                                ReleaseFault::Invalid(
                                    name + ": checksum mismatch; expected "@ + expected
                                        + ", actual "@ + actual,
                                ),
                            )
                        } else {
                            None
                        }
                    },
                }
            },
        }
    }
}

/// What is wrong with the first of `count` files with which something is.
pub open spec fn checksums_problem(
    directory: Seq<char>,
    entries: Dimensions,
    probes: Seq<ChecksumProbe>,
    count: nat,
) -> Option<ReleaseFault>
    decreases count,
{
    if count == 0 {
        None
    } else {
        match checksums_problem(directory, entries, probes, (count - 1) as nat) {
            Some(fault) => Some(fault),
            None => checksum_problem(
                directory,
                entries[count - 1].0,
                entries[count - 1].1,
                probes[count - 1],
            ),
        }
    }
}

proof fn lemma_checksums_problem_stays(
    directory: Seq<char>,
    entries: Dimensions,
    probes: Seq<ChecksumProbe>,
    k: nat,
    count: nat,
)
    requires
        k <= count,
        checksums_problem(directory, entries, probes, k) is Some,
    ensures
        checksums_problem(directory, entries, probes, count) == checksums_problem(
            directory,
            entries,
            probes,
            k,
        ),
    decreases count,
{
    if k < count {
        lemma_checksums_problem_stays(directory, entries, probes, k, (count - 1) as nat);
    }
}

fn verify_checksum(directory: &str, name: &str, expected: &str, probe: &ChecksumProbe) -> (r: Result<
    (),
    ReleaseError,
>)
    ensures
        match r {
            Ok(_) => checksum_problem(directory@, name@, expected@, *probe) is None,
            Err(e) => checksum_problem(directory@, name@, expected@, *probe) == Some(e@),
        },
{
    let path = join_paths(directory, name);
    if !below(path.as_str(), directory) {
        let mut message = "checksum entry `".to_owned();
        message.append(name);
        message.append("` escapes the artifact directory");
        return Err(ReleaseError::Invalid(message));
    }
    match &probe.kind {
        Err(source) => {
            return Err(ReleaseError::Read { path, source: source.copy() });
        },
        Ok(kind) => {
            if *kind != EntryKind::File {
                let mut message = "checksum entry `".to_owned();
                message.append(name);
                message.append("` is not a regular file");
                return Err(ReleaseError::Invalid(message));
            }
        },
    }
    match &probe.contents {
        Err(source) => Err(ReleaseError::Read { path, source: source.copy() }),
        Ok(contents) => {
            let actual = file_digest(contents);
            if !same(actual.as_str(), expected) {
                let mut message = name.to_owned();
                message.append(": checksum mismatch; expected ");
                message.append(expected);
                message.append(", actual ");
                message.append(actual.as_str());
                return Err(ReleaseError::Invalid(message));
            }
            Ok(())
        },
    }
}

/// Verify the files that a list of checksums names, without requiring release
/// metadata, and say how many there are.
pub fn verify_checksums(
    directory: &str,
    entries: &TextMap<String>,
    probes: &Vec<ChecksumProbe>,
) -> (r: Result<usize, ReleaseError>)
    requires
        probes@.len() == entries@.len(),
    ensures
        match r {
            Ok(count) => count == entries@.len() && checksums_problem(
                directory@,
                text_entries(entries@),
                probes@,
                entries@.len(),
            ) is None,
            Err(e) => checksums_problem(
                directory@,
                text_entries(entries@),
                probes@,
                entries@.len(),
            ) == Some(e@),
        },
{
    let ghost all = text_entries(entries@);
    let count: usize = entries.len();
    let mut i: usize = 0;
    while i < count
        invariant
            i <= count,
            count == entries@.len(),
            probes@.len() == entries@.len(),
            all == text_entries(entries@),
            checksums_problem(directory@, all, probes@, i as nat) is None,
        decreases count - i,
    {
        assert(all[i as int] == (entries@[i as int].0, entries@[i as int].1@));
        match verify_checksum(
            directory,
            entries.key_at(i),
            entries.value_at(i).as_str(),
            &probes[i],
        ) {
            Err(e) => {
                proof {
                    lemma_checksums_problem_stays(
                        directory@,
                        all,
                        probes@,
                        (i + 1) as nat,
                        all.len(),
                    );
                }
                return Err(e);
            },
            Ok(_) => {},
        }
        i += 1;
    }
    Ok(count)
}

// ---------------------------------------------------------------------------
// Verifying a manifest
// ---------------------------------------------------------------------------
/// What is wrong with one part of an identity.
pub open spec fn field_problem(
    field: Seq<char>,
    actual: Option<Seq<char>>,
    expected: Option<Seq<char>>,
) -> Option<ReleaseFault> {
    match expected {
        Some(value) => if actual != Some(value) {
            Some(
                ReleaseFault::Invalid(
                    "release metadata "@ + field + " does not match expected value `"@ + value
                        + "`"@,
                ),
            )
        } else {
            None
        },
        None => None,
    }
}

/// What is wrong with an identity: every part that is expected has to agree.
pub open spec fn identity_problem(actual: IdentityView, expected: IdentityView) -> Option<
    ReleaseFault,
> {
    match field_problem("repository"@, actual.repository, expected.repository) {
        Some(fault) => Some(fault),
        None => match field_problem("release tag"@, actual.release_tag, expected.release_tag) {
            Some(fault) => Some(fault),
            None => match field_problem(
                "source commit"@,
                actual.source_commit,
                expected.source_commit,
            ) {
                Some(fault) => Some(fault),
                None => field_problem(
                    "workflow run"@,
                    actual.workflow_run,
                    expected.workflow_run,
                ),
            },
        },
    }
}

fn compare_field(field: &str, actual: &Option<String>, expected: &Option<String>) -> (r: Result<
    (),
    ReleaseError,
>)
    ensures
        match r {
            Ok(_) => field_problem(field@, optional_text(*actual), optional_text(*expected)) is None,
            Err(e) => field_problem(field@, optional_text(*actual), optional_text(*expected))
                == Some(e@),
        },
{
    if let Some(value) = expected {
        let agrees: bool = match actual {
            Some(actual) => same(actual.as_str(), value.as_str()),
            None => false,
        };
        if !agrees {
            let mut message = "release metadata ".to_owned();
            message.append(field);
            message.append(" does not match expected value `");
            message.append(value.as_str());
            message.append("`");
            return Err(ReleaseError::Invalid(message));
        }
    }
    Ok(())
}

/// Accept an identity that agrees with every part that is expected.
pub fn compare_identity(actual: &ReleaseIdentity, expected: &ReleaseIdentity) -> (r: Result<
    (),
    ReleaseError,
>)
    ensures
        match r {
            Ok(_) => identity_problem(actual@, expected@) is None,
            Err(e) => identity_problem(actual@, expected@) == Some(e@),
        },
{
    match compare_field("repository", &actual.repository, &expected.repository) {
        Err(e) => {
            return Err(e);
        },
        Ok(_) => {},
    }
    match compare_field("release tag", &actual.release_tag, &expected.release_tag) {
        Err(e) => {
            return Err(e);
        },
        Ok(_) => {},
    }
    match compare_field("source commit", &actual.source_commit, &expected.source_commit) {
        Err(e) => {
            return Err(e);
        },
        Ok(_) => {},
    }
    compare_field("workflow run", &actual.workflow_run, &expected.workflow_run)
}

/// The artifacts by name: the digest and the size of each. No name may occur
/// twice.
pub open spec fn by_name(artifacts: Seq<ArtifactView>, source: Seq<char>, count: nat) -> Result<
    Seq<(Seq<char>, usize)>,
    ReleaseFault,
>
    decreases count,
{
    if count == 0 {
        Ok(Seq::empty())
    } else {
        match by_name(artifacts, source, (count - 1) as nat) {
            Err(fault) => Err(fault),
            Ok(earlier) => if lookup(earlier, artifacts[count - 1].name) is Some {
                Err(
                    ReleaseFault::Invalid(
                        "duplicate artifact `"@ + artifacts[count - 1].name + "` in "@ + source,
                    ),
                )
            } else {
                Ok(inserted(earlier, artifacts[count - 1].name, (count - 1) as usize))
            },
        }
    }
}

proof fn lemma_by_name_error_stays(
    artifacts: Seq<ArtifactView>,
    source: Seq<char>,
    k: nat,
    count: nat,
)
    requires
        k <= count,
        by_name(artifacts, source, k) is Err,
    ensures
        by_name(artifacts, source, count) == by_name(artifacts, source, k),
    decreases count,
{
    if k < count {
        lemma_by_name_error_stays(artifacts, source, k, (count - 1) as nat);
    }
}

/// Every place that the names lead to holds the artifact of that name.
proof fn lemma_by_name(artifacts: Seq<ArtifactView>, source: Seq<char>, count: nat)
    requires
        count <= artifacts.len() <= usize::MAX,
        by_name(artifacts, source, count) is Ok,
    ensures
        sorted(by_name(artifacts, source, count)->Ok_0),
        forall|name: Seq<char>|
            (#[trigger] lookup(by_name(artifacts, source, count)->Ok_0, name)) matches Some(i) ==> i
                < count && artifacts[i as int].name == name,
        forall|i: int|
            0 <= i < count ==> lookup(
                by_name(artifacts, source, count)->Ok_0,
                (#[trigger] artifacts[i]).name,
            ) == Some(i as usize),
    decreases count,
{
    if count > 0 {
        lemma_by_name(artifacts, source, (count - 1) as nat);
        let earlier = by_name(artifacts, source, (count - 1) as nat)->Ok_0;
        crate::map::law_insert_lookup(
            earlier,
            artifacts[count - 1].name,
            (count - 1) as usize,
        );
    }
}

fn artifact_map(artifacts: &Vec<Artifact>, source: &str) -> (r: Result<
    TextMap<usize>,
    ReleaseError,
>)
    ensures
        match r {
            Ok(map) => by_name(artifact_views(artifacts@), source@, artifacts@.len()) == Ok::<
                Seq<(Seq<char>, usize)>,
                ReleaseFault,
            >(map@),
            Err(e) => by_name(artifact_views(artifacts@), source@, artifacts@.len()) == Err::<
                Seq<(Seq<char>, usize)>,
                ReleaseFault,
            >(e@),
        },
{
    let ghost all = artifact_views(artifacts@);
    let mut map: TextMap<usize> = TextMap::new();
    let mut i: usize = 0;
    while i < artifacts.len()
        invariant
            i <= artifacts@.len(),
            all == artifact_views(artifacts@),
            by_name(all, source@, i as nat) == Ok::<Seq<(Seq<char>, usize)>, ReleaseFault>(map@),
        decreases artifacts.len() - i,
    {
        assert(all[i as int] == artifacts[i as int]@);
        if map.contains_key(artifacts[i].name.as_str()) {
            let mut message = "duplicate artifact `".to_owned();
            message.append(artifacts[i].name.as_str());
            message.append("` in ");
            message.append(source);
            proof {
                lemma_by_name_error_stays(all, source@, (i + 1) as nat, all.len());
            }
            return Err(ReleaseError::Invalid(message));
        }
        map.insert(artifacts[i].name.clone(), i);
        i += 1;
    }
    Ok(map)
}

/// What is wrong with the first of `count` artifacts with which something is.
pub open spec fn changed_artifact(
    artifacts: Seq<ArtifactView>,
    actual: Seq<ArtifactView>,
    actual_by_name: Seq<(Seq<char>, usize)>,
    count: nat,
) -> Option<ReleaseFault>
    decreases count,
{
    if count == 0 {
        None
    } else {
        match changed_artifact(artifacts, actual, actual_by_name, (count - 1) as nat) {
            Some(fault) => Some(fault),
            None => {
                let artifact = artifacts[count - 1];
                match lookup(actual_by_name, artifact.name) {
                    Some(place) => if actual[place as int].sha256 != artifact.sha256
                        || actual[place as int].size != artifact.size {
                        Some(
                            ReleaseFault::Invalid(
                                "artifact `"@ + artifact.name + "` does not match its metadata"@,
                            ),
                        )
                    } else {
                        None
                    },
                    None => None,
                }
            },
        }
    }
}

proof fn lemma_changed_stays(
    artifacts: Seq<ArtifactView>,
    actual: Seq<ArtifactView>,
    actual_by_name: Seq<(Seq<char>, usize)>,
    k: nat,
    count: nat,
)
    requires
        k <= count,
        changed_artifact(artifacts, actual, actual_by_name, k) is Some,
    ensures
        changed_artifact(artifacts, actual, actual_by_name, count) == changed_artifact(
            artifacts,
            actual,
            actual_by_name,
            k,
        ),
    decreases count,
{
    if k < count {
        lemma_changed_stays(artifacts, actual, actual_by_name, k, (count - 1) as nat);
    }
}

/// The digests of the artifacts, by name.
pub open spec fn digests_by_name(
    artifacts: Seq<ArtifactView>,
    places: Seq<(Seq<char>, usize)>,
) -> Dimensions {
    places.map_values(|e: (Seq<char>, usize)| (e.0, artifacts[e.1 as int].sha256))
}

/// What was read of the metadata of a release.
#[derive(Debug)]
pub enum MetadataRead {
    /// The file could not be read.
    Failed(IoError),
    /// The file is no valid document, for the given reason.
    Malformed(String),
    Parsed(ReleaseManifest),
}

/// What is wrong with a release, given what was found of it.
pub open spec fn manifest_problem(
    directory: Seq<char>,
    manifest: ManifestView,
    expected: IdentityView,
    is_directory: bool,
    entries: Seq<FoundEntry>,
    checksums: Result<String, IoError>,
) -> Option<ReleaseFault> {
    let metadata_path = join_path(directory, METADATA_FILE_NAME@);
    let checksums_path = join_path(directory, CHECKSUMS_FILE_NAME@);
    if manifest.manifest_version != MANIFEST_VERSION {
        Some(
            ReleaseFault::Invalid(
                metadata_path + " has unsupported manifest version "@ + decimal(
                    manifest.manifest_version as nat,
                ) + "; expected "@ + decimal(MANIFEST_VERSION as nat),
            ),
        )
    } else if let Some(fault) = identity_problem(manifest.identity, expected) {
        Some(fault)
    } else {
        match collected_artifacts(directory, is_directory, entries) {
            Err(fault) => Some(fault),
            Ok(actual) => match by_name(
                manifest.artifacts,
                "metadata"@,
                manifest.artifacts.len(),
            ) {
                Err(fault) => Some(fault),
                Ok(wanted) => match by_name(actual, "directory"@, actual.len()) {
                    Err(fault) => Some(fault),
                    Ok(present) => if keys(wanted) != keys(present) {
                        Some(
                            ReleaseFault::Invalid(
                                metadata_path
                                    + " artifact inventory does not match the files in "@
                                    + directory,
                            ),
                        )
                    } else if let Some(fault) = changed_artifact(
                        manifest.artifacts,
                        actual,
                        present,
                        manifest.artifacts.len(),
                    ) {
                        Some(fault)
                    } else {
                        match checksums_of(checksums_path, checksums) {
                            Err(fault) => Some(fault),
                            Ok(listed) => if listed != digests_by_name(
                                manifest.artifacts,
                                wanted,
                            ) {
                                Some(
                                    ReleaseFault::Invalid(
                                        checksums_path + " does not match the release manifest"@,
                                    ),
                                )
                            } else {
                                None
                            },
                        }
                    },
                },
            },
        }
    }
}

/// What verifying a release comes to.
pub open spec fn verified(
    directory: Seq<char>,
    metadata: MetadataRead,
    expected: IdentityView,
    is_directory: bool,
    entries: Seq<FoundEntry>,
    checksums: Result<String, IoError>,
) -> Result<ManifestView, ReleaseFault> {
    let metadata_path = join_path(directory, METADATA_FILE_NAME@);
    match metadata {
        MetadataRead::Failed(source) => Err(
            ReleaseFault::Read { path: metadata_path, source: source@ },
        ),
        MetadataRead::Malformed(reason) => Err(
            ReleaseFault::Invalid(metadata_path + " is invalid JSON: "@ + reason@),
        ),
        MetadataRead::Parsed(manifest) => match manifest_problem(
            directory,
            manifest@,
            expected,
            is_directory,
            entries,
            checksums,
        ) {
            Some(fault) => Err(fault),
            None => Ok(manifest@),
        },
    }
}

fn same_keys(a: &TextMap<usize>, b: &TextMap<usize>) -> (r: bool)
    ensures
        r == (keys(a@) == keys(b@)),
{
    let count: usize = a.len();
    if count != b.len() {
        assert(keys(a@).len() != keys(b@).len());
        return false;
    }
    let mut i: usize = 0;
    while i < count
        invariant
            i <= count,
            count == a@.len(),
            count == b@.len(),
            forall|k: int| 0 <= k < i ==> #[trigger] a@[k].0 == b@[k].0,
        decreases count - i,
    {
        if !same(a.key_at(i), b.key_at(i)) {
            assert(keys(a@)[i as int] != keys(b@)[i as int]);
            return false;
        }
        i += 1;
    }
    assert forall|k: int| 0 <= k < count implies keys(a@)[k] == keys(b@)[k] by {
        assert(a@[k].0 == b@[k].0);
    }
    assert(keys(a@) =~= keys(b@));
    true
}

fn find_changed(
    artifacts: &Vec<Artifact>,
    actual: &Vec<Artifact>,
    present: &TextMap<usize>,
) -> (r: Result<(), ReleaseError>)
    requires
        by_name(artifact_views(actual@), "directory"@, actual@.len()) == Ok::<
            Seq<(Seq<char>, usize)>,
            ReleaseFault,
        >(present@),
    ensures
        match r {
            Ok(_) => changed_artifact(
                artifact_views(artifacts@),
                artifact_views(actual@),
                present@,
                artifacts@.len(),
            ) is None,
            Err(e) => changed_artifact(
                artifact_views(artifacts@),
                artifact_views(actual@),
                present@,
                artifacts@.len(),
            ) == Some(e@),
        },
{
    let ghost all = artifact_views(artifacts@);
    let ghost found = artifact_views(actual@);
    let count: usize = actual.len();
    proof {
        assert(found.len() == count);
        lemma_by_name(found, "directory"@, found.len());
    }
    let mut i: usize = 0;
    while i < artifacts.len()
        invariant
            i <= artifacts@.len(),
            all == artifact_views(artifacts@),
            found == artifact_views(actual@),
            changed_artifact(all, found, present@, i as nat) is None,
            forall|name: Seq<char>|
                (#[trigger] lookup(present@, name)) matches Some(k) ==> k < found.len(),
        decreases artifacts.len() - i,
    {
        let artifact = &artifacts[i];
        assert(all[i as int] == artifact@);
        if let Some(place) = present.get(artifact.name.as_str()) {
            assert(lookup(present@, artifact.name@) == Some(*place));
            assert(found[*place as int] == actual[*place as int]@);
            if !same(actual[*place].sha256.as_str(), artifact.sha256.as_str())
                || actual[*place].size != artifact.size {
                let mut message = "artifact `".to_owned();
                message.append(artifact.name.as_str());
                message.append("` does not match its metadata");
                proof {
                    lemma_changed_stays(all, found, present@, (i + 1) as nat, all.len());
                }
                return Err(ReleaseError::Invalid(message));
            }
        }
        i += 1;
    }
    Ok(())
}

fn lists_digests(listed: &TextMap<String>, artifacts: &Vec<Artifact>, wanted: &TextMap<usize>) -> (r:
    bool)
    requires
        by_name(artifact_views(artifacts@), "metadata"@, artifacts@.len()) == Ok::<
            Seq<(Seq<char>, usize)>,
            ReleaseFault,
        >(wanted@),
    ensures
        r == (text_entries(listed@) == digests_by_name(artifact_views(artifacts@), wanted@)),
{
    let ghost all = artifact_views(artifacts@);
    let ghost have = text_entries(listed@);
    let ghost want = digests_by_name(all, wanted@);
    let count: usize = listed.len();
    if count != wanted.len() {
        assert(have.len() != want.len());
        return false;
    }
    let total: usize = artifacts.len();
    proof {
        assert(all.len() == total);
        lemma_by_name(all, "metadata"@, all.len());
        assert forall|k: int| 0 <= k < wanted@.len() implies (#[trigger] wanted@[k]).1
            < all.len() by {
            crate::map::lemma_lookup_index(wanted@, k);
            assert(lookup(wanted@, wanted@[k].0) == Some(wanted@[k].1));
        }
    }
    let mut i: usize = 0;
    while i < count
        invariant
            i <= count,
            count == listed@.len(),
            count == wanted@.len(),
            all == artifact_views(artifacts@),
            have == text_entries(listed@),
            want == digests_by_name(all, wanted@),
            forall|k: int| 0 <= k < wanted@.len() ==> (#[trigger] wanted@[k]).1 < all.len(),
            forall|k: int| 0 <= k < i ==> #[trigger] have[k] == want[k],
        decreases count - i,
    {
        let place: usize = *wanted.value_at(i);
        assert(wanted@[i as int].1 == place);
        assert(have[i as int] == (listed@[i as int].0, listed@[i as int].1@));
        assert(want[i as int] == (wanted@[i as int].0, all[place as int].sha256));
        assert(all[place as int] == artifacts[place as int]@);
        if !same(listed.key_at(i), wanted.key_at(i)) || !same(
            listed.value_at(i).as_str(),
            artifacts[place].sha256.as_str(),
        ) {
            assert(have[i as int] != want[i as int]);
            return false;
        }
        i += 1;
    }
    assert(have =~= want);
    true
}

/// Verify metadata, checksums, and the exact regular-file inventory.
pub fn verify_manifest(
    directory: &str,
    metadata: MetadataRead,
    expected: &ReleaseIdentity,
    is_directory: bool,
    entries: &Vec<FoundEntry>,
    checksums: &Result<String, IoError>,
) -> (r: Result<ReleaseManifest, ReleaseError>)
    ensures
        verified(directory@, metadata, expected@, is_directory, entries@, *checksums) == (match r {
            Ok(manifest) => Ok::<ManifestView, ReleaseFault>(manifest@),
            Err(e) => Err(e@),
        }),
{
    let metadata_path = join_paths(directory, METADATA_FILE_NAME);
    let checksums_path = join_paths(directory, CHECKSUMS_FILE_NAME);
    let manifest = match metadata {
        MetadataRead::Failed(source) => {
            return Err(ReleaseError::Read { path: metadata_path, source });
        },
        MetadataRead::Malformed(reason) => {
            let mut message = metadata_path;
            message.append(" is invalid JSON: ");
            message.append(reason.as_str());
            return Err(ReleaseError::Invalid(message));
        },
        MetadataRead::Parsed(manifest) => manifest,
    };
    if manifest.manifest_version != MANIFEST_VERSION {
        let mut message = metadata_path;
        message.append(" has unsupported manifest version ");
        message.append(number(manifest.manifest_version as u128).as_str());
        message.append("; expected ");
        message.append(number(MANIFEST_VERSION as u128).as_str());
        return Err(ReleaseError::Invalid(message));
    }
    match compare_identity(&manifest.identity(), expected) {
        Err(e) => {
            return Err(e);
        },
        Ok(_) => {},
    }
    let actual = match collect_artifacts(directory, is_directory, entries) {
        Ok(actual) => actual,
        Err(e) => {
            return Err(e);
        },
    };
    let wanted = match artifact_map(&manifest.artifacts, "metadata") {
        Ok(wanted) => wanted,
        Err(e) => {
            return Err(e);
        },
    };
    let present = match artifact_map(&actual, "directory") {
        Ok(present) => present,
        Err(e) => {
            return Err(e);
        },
    };
    if !same_keys(&wanted, &present) {
        let mut message = metadata_path;
        message.append(" artifact inventory does not match the files in ");
        message.append(directory);
        return Err(ReleaseError::Invalid(message));
    }
    match find_changed(&manifest.artifacts, &actual, &present) {
        Err(e) => {
            return Err(e);
        },
        Ok(_) => {},
    }
    let listed = match read_checksums(checksums_path.as_str(), checksums) {
        Ok(listed) => listed,
        Err(e) => {
            return Err(e);
        },
    };
    if !lists_digests(&listed, &manifest.artifacts, &wanted) {
        let mut message = checksums_path;
        message.append(" does not match the release manifest");
        return Err(ReleaseError::Invalid(message));
    }
    Ok(manifest)
}

// ---------------------------------------------------------------------------
// The source of a release
// ---------------------------------------------------------------------------
/// What is wrong with a request to verify a release source.
pub open spec fn source_request_problem(tag: Seq<char>, expected_commit: Seq<char>) -> Option<
    ReleaseFault,
> {
    if tag.len() == 0 || expected_commit.len() == 0 {
        Some(
            ReleaseFault::Invalid(
                "release source verification requires a non-empty tag and commit"@,
            ),
        )
    } else if tag[0] == '-' || crate::text::any(tag, |c: char| crate::text::is_space(c)) {
        Some(ReleaseFault::Invalid("release tag `"@ + tag + "` is not a safe Git ref"@))
    } else {
        None
    }
}

/// Check what can be checked before Git is asked about a release source.
pub fn check_source_request(tag: &str, expected_commit: &str) -> (r: Result<(), ReleaseError>)
    ensures
        match r {
            Ok(_) => source_request_problem(tag@, expected_commit@) is None,
            Err(e) => source_request_problem(tag@, expected_commit@) == Some(e@),
        },
{
    let chars = chars_of(tag);
    if chars.len() == 0 || chars_of(expected_commit).len() == 0 {
        return Err(
            ReleaseError::Invalid(
                "release source verification requires a non-empty tag and commit".to_owned(),
            ),
        );
    }
    if chars[0] == '-' || crate::commands::changelog::has_space(&chars) {
        let mut message = "release tag `".to_owned();
        message.append(tag);
        message.append("` is not a safe Git ref");
        return Err(ReleaseError::Invalid(message));
    }
    Ok(())
}

/// What a run of Git printed, without the blanks around it.
pub open spec fn git_answer(args: Seq<Seq<char>>, output: Result<GitOutput, IoError>) -> Result<
    Seq<char>,
    ReleaseFault,
> {
    match output {
        Err(error) => Err(
            ReleaseFault::Command(
                "could not run `git "@ + join(args, " "@) + "`: "@ + error@.message,
            ),
        ),
        Ok(output) => if !output.success {
            Err(
                ReleaseFault::Command(
                    "`git "@ + join(args, " "@) + "` failed: "@ + trim(lossy(output.stderr@)),
                ),
            )
        } else {
            Ok(trim(lossy(output.stdout@)))
        },
    }
}

/// What a run of Git printed, without the blanks around it.
pub fn git(args: &Vec<String>, output: Result<GitOutput, IoError>) -> (r: Result<
    String,
    ReleaseError,
>)
    ensures
        git_answer(texts(args@), output) == (match r {
            Ok(text) => Ok::<Seq<char>, ReleaseFault>(text@),
            Err(e) => Err(e@),
        }),
{
    match output {
        Err(error) => {
            let mut message = "could not run `git ".to_owned();
            message.append(join_texts(args, " ").as_str());
            message.append("`: ");
            message.append(error.message.as_str());
            Err(ReleaseError::Command(message))
        },
        Ok(output) => {
            if !output.success {
                let mut message = "`git ".to_owned();
                message.append(join_texts(args, " ").as_str());
                message.append("` failed: ");
                message.append(trim_text(lossy_text(&output.stderr).as_str()).as_str());
                return Err(ReleaseError::Command(message));
            }
            Ok(trim_text(lossy_text(&output.stdout).as_str()))
        },
    }
}

/// The view of an answer of Git.
pub open spec fn answer_view(answer: Result<String, ReleaseError>) -> Result<
    Seq<char>,
    ReleaseFault,
> {
    match answer {
        Ok(text) => Ok(text@),
        Err(e) => Err(e@),
    }
}

/// What is wrong with the source of a release: the checkout, the tag and the
/// expected commit have to agree.
pub open spec fn source_problem(
    tag: Seq<char>,
    expected_commit: Seq<char>,
    checkout: Result<Seq<char>, ReleaseFault>,
    tagged: Result<Seq<char>, ReleaseFault>,
) -> Option<ReleaseFault> {
    match source_request_problem(tag, expected_commit) {
        Some(fault) => Some(fault),
        None => match checkout {
            Err(fault) => Some(fault),
            Ok(checkout) => match tagged {
                Err(fault) => Some(fault),
                Ok(tagged) => if checkout != tagged || checkout != expected_commit {
                    Some(
                        ReleaseFault::Invalid(
                            "release source does not match: checkout "@ + checkout + ", tag "@
                                + tagged + ", expected "@ + expected_commit,
                        ),
                    )
                } else {
                    None
                },
            },
        },
    }
}

/// Verify that the checkout, the tag and the expected commit agree, given what
/// Git says of the first two.
pub fn verify_source(
    tag: &str,
    expected_commit: &str,
    checkout: Result<String, ReleaseError>,
    tagged: Result<String, ReleaseError>,
) -> (r: Result<(), ReleaseError>)
    ensures
        match r {
            Ok(_) => source_problem(
                tag@,
                expected_commit@,
                answer_view(checkout),
                answer_view(tagged),
            ) is None,
            Err(e) => source_problem(
                tag@,
                expected_commit@,
                answer_view(checkout),
                answer_view(tagged),
            ) == Some(e@),
        },
{
    match check_source_request(tag, expected_commit) {
        Err(e) => {
            return Err(e);
        },
        Ok(_) => {},
    }
    let checkout_commit = match checkout {
        Ok(commit) => commit,
        Err(e) => {
            return Err(e);
        },
    };
    let tag_commit = match tagged {
        Ok(commit) => commit,
        Err(e) => {
            return Err(e);
        },
    };
    if !same(checkout_commit.as_str(), tag_commit.as_str()) || !same(
        checkout_commit.as_str(),
        expected_commit,
    ) {
        let mut message = "release source does not match: checkout ".to_owned();
        message.append(checkout_commit.as_str());
        message.append(", tag ");
        message.append(tag_commit.as_str());
        message.append(", expected ");
        message.append(expected_commit);
        return Err(ReleaseError::Invalid(message));
    }
    Ok(())
}

// ---------------------------------------------------------------------------
// What was created can be verified
// ---------------------------------------------------------------------------
proof fn lemma_named_piece(pieces: Seq<Seq<char>>, i: int) -> (k: int)
    requires
        0 <= i < crate::path::named_pieces(pieces).len(),
    ensures
        0 <= k < pieces.len(),
        crate::path::named_pieces(pieces)[i] == pieces[k],
        pieces[k].len() > 0,
        pieces[k] != "."@,
    decreases pieces.len(),
{
    let front = pieces.drop_last();
    let named = crate::path::named_pieces(front);
    if i < named.len() {
        lemma_named_piece(front, i)
    } else {
        pieces.len() - 1
    }
}

proof fn lemma_all_named(pieces: Seq<Seq<char>>)
    requires
        forall|i: int| 0 <= i < pieces.len() ==> (#[trigger] pieces[i]).len() > 0 && pieces[i] != "."@,
    ensures
        crate::path::named_pieces(pieces) == pieces,
    decreases pieces.len(),
{
    if pieces.len() > 0 {
        let front = pieces.drop_last();
        assert forall|i: int| 0 <= i < front.len() implies (#[trigger] front[i]).len() > 0
            && front[i] != "."@ by {
            assert(front[i] == pieces[i]);
        }
        lemma_all_named(front);
        assert(pieces[pieces.len() - 1].len() > 0);
        assert(front.push(pieces.last()) =~= pieces);
    }
}

proof fn lemma_no_component_problem(
    path: Seq<char>,
    parts: Seq<Seq<char>>,
    count: nat,
    i: int,
)
    requires
        0 <= i < count <= parts.len(),
        component_problem(path, parts, count) is None,
    ensures
        is_normal(parts[i]),
        !parts[i].contains('\n'),
        !parts[i].contains('\r'),
    decreases count,
{
    if i < count - 1 {
        lemma_no_component_problem(path, parts, (count - 1) as nat, i);
    }
}

/// The name of an artifact can be listed with its checksum, and leads back to
/// the same path.
pub proof fn law_artifact_names_are_listable(path: Seq<char>)
    requires
        name_of(path) is Ok,
        components(path).len() > 0,
    ensures
        is_listable(name_of(path)->Ok_0),
        components(name_of(path)->Ok_0) == components(path),
{
    reveal_strlit("/");
    reveal_strlit(".");
    assert("/"@ =~= seq!['/']);
    let parts = components(path);
    let pieces = crate::text::split(path, '/');
    let name = join(parts, "/"@);
    lemma_no_component_problem(path, parts, parts.len(), 0);
    crate::text::lemma_split_nonempty(path, '/');
    if is_absolute(path) {
        assert(parts[0] == "/"@);
    }
    if pieces[0] == "."@ && !is_absolute(path) {
        assert(parts[0] == "."@);
    }
    assert(parts =~= crate::path::named_pieces(pieces));
    assert forall|i: int| 0 <= i < parts.len() implies (#[trigger] parts[i]).len() > 0 && parts[i]
        != "."@ && !parts[i].contains('/') && !parts[i].contains('\n') && !parts[i].contains('\r')
        && parts[i] != ".."@ by {
        let k = lemma_named_piece(pieces, i);
        crate::text::lemma_split_pieces(path, '/', k);
        lemma_no_component_problem(path, parts, parts.len(), i);
    }
    crate::text::lemma_join_chars(parts, '/', '\n');
    crate::text::lemma_join_chars(parts, '/', '\r');
    crate::text::law_join_split(parts, '/');
    lemma_all_named(parts);
    let first = parts[0];
    assert(first.len() > 0 && !first.contains('/'));
    assert(name.len() > 0 && name[0] == first[0]) by {
        if parts.len() > 1 {
            let rest = parts.drop_first();
            assert(parts =~= seq![first] + rest);
            crate::text::lemma_join_front(first, rest, "/"@);
        }
    }
    assert(first.contains(first[0]));
    assert(!is_absolute(name));
    assert(crate::text::split(name, '/') == parts);
    assert(components(name) =~= parts);
    if has_parent(name) {
        let i = choose|i: int| 0 <= i < parts.len() && parts[i] == ".."@;
        assert(parts[i].len() > 0);
    }
}

proof fn lemma_lower_digest(text: Seq<char>)
    requires
        is_digest(text),
    ensures
        is_any_digest(text),
        lowered(text) == text,
{
    assert forall|i: int| 0 <= i < text.len() implies is_hex(#[trigger] text[i]) && lower(text[i])
        == text[i] by {
        assert(is_lower_hex(text[i]));
    }
    assert(lowered(text) =~= text);
}

/// Whether the line of an artifact can be read back.
pub open spec fn is_readable(artifact: ArtifactView) -> bool {
    is_digest(artifact.sha256) && is_listable(artifact.name) && artifact.name[0] != '*'
}

/// The line of an artifact says what the artifact is.
proof fn lemma_line_read_back(path: Seq<char>, artifact: ArtifactView, count: nat)
    requires
        is_readable(artifact),
    ensures
        checksum_of_line(path, checksum_line(artifact), count) == Ok::<
            Option<(Seq<char>, Seq<char>)>,
            ReleaseFault,
        >(Some((artifact.name, artifact.sha256))),
        !checksum_line(artifact).contains('\n'),
        !checksum_line(artifact).contains('\r'),
{
    reveal_strlit("  ");
    let row = checksum_line(artifact);
    let digest = artifact.sha256;
    let gap = "  "@;
    lemma_lower_digest(digest);
    assert(is_lower_hex(digest[0]));
    assert(row[0] == digest[0]);
    crate::text::lemma_not_blank(row);
    assert(gap.is_prefix_of(row.skip(64))) by {
        assert(row.skip(64).subrange(0, 2) =~= gap);
    }
    assert forall|j: int| 0 <= j < 64 implies !gap.is_prefix_of(#[trigger] row.skip(j)) by {
        if gap.is_prefix_of(row.skip(j)) {
            assert(row.skip(j).subrange(0, 2)[0] == gap[0]);
            assert(row[j] == digest[j]);
            assert(is_lower_hex(digest[j]));
        }
    }
    crate::text::lemma_find_first(row, gap, 64);
    assert(row.take(64) =~= digest);
    assert(row.skip(66) =~= artifact.name);
    if row.contains('\n') || row.contains('\r') {
        let k = choose|k: int| 0 <= k < row.len() && (row[k] == '\n' || row[k] == '\r');
        if k < 64 {
            assert(row[k] == digest[k]);
            assert(is_lower_hex(digest[k]));
        } else if k >= 66 {
            assert(row[k] == artifact.name[k - 66]);
            assert(artifact.name.contains(row[k]));
        }
    }
}

proof fn lemma_digests_inserted(
    artifacts: Seq<ArtifactView>,
    places: Seq<(Seq<char>, usize)>,
    name: Seq<char>,
    place: usize,
)
    ensures
        digests_by_name(artifacts, inserted(places, name, place)) == inserted(
            digests_by_name(artifacts, places),
            name,
            artifacts[place as int].sha256,
        ),
        lookup(digests_by_name(artifacts, places), name) is Some == lookup(places, name) is Some,
    decreases places.len(),
{
    let mapped = digests_by_name(artifacts, places);
    if places.len() > 0 {
        lemma_digests_inserted(artifacts, places.drop_first(), name, place);
        assert(mapped.drop_first() =~= digests_by_name(artifacts, places.drop_first()));
    }
    assert(digests_by_name(artifacts, inserted(places, name, place)) =~= inserted(
        mapped,
        name,
        artifacts[place as int].sha256,
    ));
}

/// The artifacts have different names.
pub open spec fn distinct_names(artifacts: Seq<ArtifactView>) -> bool {
    forall|i: int, j: int|
        0 <= i < j < artifacts.len() ==> (#[trigger] artifacts[i]).name != (
        #[trigger] artifacts[j]).name
}

proof fn lemma_distinct_by_name(artifacts: Seq<ArtifactView>, source: Seq<char>, count: nat)
    requires
        count <= artifacts.len() <= usize::MAX,
        distinct_names(artifacts),
    ensures
        by_name(artifacts, source, count) is Ok,
    decreases count,
{
    if count > 0 {
        lemma_distinct_by_name(artifacts, source, (count - 1) as nat);
        lemma_by_name(artifacts, source, (count - 1) as nat);
        let earlier = by_name(artifacts, source, (count - 1) as nat)->Ok_0;
        if lookup(earlier, artifacts[count - 1].name) is Some {
            let i = lookup(earlier, artifacts[count - 1].name)->0;
            assert(artifacts[i as int].name == artifacts[count - 1].name);
        }
    }
}

proof fn lemma_source_is_only_for_messages(
    artifacts: Seq<ArtifactView>,
    a: Seq<char>,
    b: Seq<char>,
    count: nat,
)
    requires
        by_name(artifacts, a, count) is Ok,
    ensures
        by_name(artifacts, b, count) == by_name(artifacts, a, count),
    decreases count,
{
    if count > 0 {
        lemma_source_is_only_for_messages(artifacts, a, b, (count - 1) as nat);
    }
}

proof fn lemma_checksums_read_back(
    path: Seq<char>,
    artifacts: Seq<ArtifactView>,
    rows: Seq<Seq<char>>,
    count: nat,
)
    requires
        count <= artifacts.len() <= usize::MAX,
        distinct_names(artifacts),
        forall|i: int| 0 <= i < artifacts.len() ==> is_readable(#[trigger] artifacts[i]),
        rows == artifacts.map_values(|a: ArtifactView| checksum_line(a)),
    ensures
        by_name(artifacts, "metadata"@, count) is Ok,
        checksums_of_lines(path, rows, count) == Ok::<Dimensions, ReleaseFault>(
            digests_by_name(artifacts, by_name(artifacts, "metadata"@, count)->Ok_0),
        ),
    decreases count,
{
    lemma_distinct_by_name(artifacts, "metadata"@, count);
    if count > 0 {
        lemma_checksums_read_back(path, artifacts, rows, (count - 1) as nat);
        let earlier = by_name(artifacts, "metadata"@, (count - 1) as nat)->Ok_0;
        let artifact = artifacts[count - 1];
        assert(is_readable(artifact));
        lemma_line_read_back(path, artifact, count);
        lemma_digests_inserted(artifacts, earlier, artifact.name, (count - 1) as usize);
    } else {
        assert(digests_by_name(
            artifacts,
            by_name(artifacts, "metadata"@, 0)->Ok_0,
        ) =~= Seq::empty());
    }
}

proof fn lemma_nothing_changed(
    artifacts: Seq<ArtifactView>,
    places: Seq<(Seq<char>, usize)>,
    count: nat,
)
    requires
        count <= artifacts.len() <= usize::MAX,
        forall|i: int|
            0 <= i < artifacts.len() ==> lookup(places, (#[trigger] artifacts[i]).name) == Some(
                i as usize,
            ),
    ensures
        changed_artifact(artifacts, artifacts, places, count) is None,
    decreases count,
{
    if count > 0 {
        lemma_nothing_changed(artifacts, places, (count - 1) as nat);
        assert(lookup(places, artifacts[count - 1].name) == Some((count - 1) as usize));
    }
}

/// Whether `entries` can come from a walk: every file has a name, and no file
/// is met twice.
pub open spec fn is_walk(entries: Seq<FoundEntry>) -> bool {
    &&& forall|i: int|
        0 <= i < entries.len() && (#[trigger] entries[i]).kind == EntryKind::File ==> components(
            entries[i].relative@,
        ).len() > 0
    &&& forall|i: int, j: int|
        0 <= i < j < entries.len() && (#[trigger] entries[i]).kind == EntryKind::File && (
        #[trigger] entries[j]).kind == EntryKind::File ==> components(entries[i].relative@)
            != components(entries[j].relative@)
}

proof fn lemma_placed_somewhere(files: Seq<(Seq<char>, int)>, name: Seq<char>, place: int) -> (at:
    int)
    ensures
        0 <= at <= files.len(),
        placed(files, name, place) == files.insert(at, (name, place)),
    decreases files.len(),
{
    if files.len() > 0 && text_le(files[0].0, name) {
        let rest = lemma_placed_somewhere(files.drop_first(), name, place);
        assert(placed(files, name, place) =~= files.insert(rest + 1, (name, place)));
        rest + 1
    } else {
        assert(placed(files, name, place) =~= files.insert(0, (name, place)));
        0
    }
}

/// The inventory holds the place of every file, once.
proof fn lemma_inventory(entries: Seq<FoundEntry>, count: nat)
    requires
        count <= entries.len(),
        inventory(entries, count) is Ok,
    ensures
        ({
            let files = inventory(entries, count)->Ok_0;
            &&& files.len() <= count
            &&& forall|k: int|
                0 <= k < files.len() ==> 0 <= (#[trigger] files[k]).1 < count && entry_name(
                    entries[files[k].1],
                ) == Ok::<Option<Seq<char>>, ReleaseFault>(Some(files[k].0))
            &&& forall|a: int, b: int|
                0 <= a < b < files.len() ==> (#[trigger] files[a]).1 != (#[trigger] files[b]).1
            &&& forall|i: int|
                0 <= i < count ==> {
                    &&& entry_name(#[trigger] entries[i]) is Ok
                    &&& entry_name(entries[i])->Ok_0 matches Some(name) ==> files.contains(
                        (name, i),
                    )
                }
        }),
    decreases count,
{
    if count > 0 {
        lemma_inventory(entries, (count - 1) as nat);
        let earlier = inventory(entries, (count - 1) as nat)->Ok_0;
        let files = inventory(entries, count)->Ok_0;
        if let Some(name) = entry_name(entries[count - 1])->Ok_0 {
            let at = lemma_placed_somewhere(earlier, name, count - 1);
            assert(files[at] == (name, count - 1));
            assert forall|k: int| 0 <= k < files.len() implies 0 <= (#[trigger] files[k]).1 < count
                && entry_name(entries[files[k].1]) == Ok::<Option<Seq<char>>, ReleaseFault>(
                Some(files[k].0),
            ) by {
                if k < at {
                    assert(files[k] == earlier[k]);
                } else if k > at {
                    assert(files[k] == earlier[k - 1]);
                }
            }
            assert forall|a: int, b: int| 0 <= a < b < files.len() implies (#[trigger] files[a]).1
                != (#[trigger] files[b]).1 by {
                let x = if a < at {
                    a
                } else {
                    a - 1
                };
                let y = if b < at {
                    b
                } else {
                    b - 1
                };
                if a != at && b != at {
                    assert(files[a] == earlier[x] && files[b] == earlier[y]);
                } else if a != at {
                    assert(files[a] == earlier[x]);
                } else {
                    assert(files[b] == earlier[y]);
                }
            }
            assert forall|i: int| 0 <= i < count implies {
                &&& entry_name(#[trigger] entries[i]) is Ok
                &&& entry_name(entries[i])->Ok_0 matches Some(name) ==> files.contains((name, i))
            } by {
                if i < count - 1 {
                    if let Some(own) = entry_name(entries[i])->Ok_0 {
                        let k = choose|k: int| 0 <= k < earlier.len() && earlier[k] == (own, i);
                        if k < at {
                            assert(files[k] == (own, i));
                        } else {
                            assert(files[k + 1] == (own, i));
                        }
                    }
                }
            }
        } else {
            assert(files == earlier);
        }
    }
}

/// The artifact that a file is.
pub open spec fn artifact_of(name: Seq<char>, contents: Seq<u8>) -> ArtifactView {
    ArtifactView { name, sha256: hex(sha256_of(contents)), size: contents.len() as u64 }
}

proof fn lemma_artifacts_at(
    entries: Seq<FoundEntry>,
    files: Seq<(Seq<char>, int)>,
    count: nat,
)
    requires
        artifacts_at(entries, files, count) is Ok,
    ensures
        artifacts_at(entries, files, count)->Ok_0.len() == count,
        forall|k: int|
            #![trigger files[k]]
            #![trigger artifacts_at(entries, files, count)->Ok_0[k]]
            0 <= k < count ==> entries[files[k].1].contents is Ok && artifacts_at(
                entries,
                files,
                count,
            )->Ok_0[k] == artifact_of(files[k].0, entries[files[k].1].contents->Ok_0@),
    decreases count,
{
    if count > 0 {
        lemma_artifacts_at(entries, files, (count - 1) as nat);
        let earlier = artifacts_at(entries, files, (count - 1) as nat)->Ok_0;
        let all = artifacts_at(entries, files, count)->Ok_0;
        assert forall|k: int| 0 <= k < count implies entries[(#[trigger] files[k]).1].contents is Ok
            && all[k] == artifact_of(files[k].0, entries[files[k].1].contents->Ok_0@) by {
            if k < count - 1 {
                assert(all[k] == earlier[k]);
            }
        }
    }
}

/// Whether `entries` hold a file of the release with that name and digest.
pub open spec fn holds_file(entries: Seq<FoundEntry>, name: Seq<char>, digest: Seq<char>) -> bool {
    exists|i: int|
        0 <= i < entries.len() && entry_name(#[trigger] entries[i]) == Ok::<
            Option<Seq<char>>,
            ReleaseFault,
        >(Some(name)) && entries[i].contents is Ok && hex(
            sha256_of(entries[i].contents->Ok_0@),
        ) == digest
}

/// Whether an artifact of that name and digest is listed.
pub open spec fn lists(artifacts: Seq<ArtifactView>, name: Seq<char>, digest: Seq<char>) -> bool {
    exists|k: int|
        0 <= k < artifacts.len() && (#[trigger] artifacts[k]).name == name && artifacts[k].sha256
            == digest
}

proof fn lemma_collected_files(
    directory: Seq<char>,
    entries: Seq<FoundEntry>,
    name: Seq<char>,
    digest: Seq<char>,
)
    requires
        collected_artifacts(directory, true, entries) is Ok,
    ensures
        lists(collected_artifacts(directory, true, entries)->Ok_0, name, digest) <==> holds_file(
            entries,
            name,
            digest,
        ),
        collected_artifacts(directory, true, entries)->Ok_0.len() <= entries.len(),
{
    let files = inventory(entries, entries.len())->Ok_0;
    let artifacts = collected_artifacts(directory, true, entries)->Ok_0;
    lemma_inventory(entries, entries.len());
    lemma_artifacts_at(entries, files, files.len());
    if lists(artifacts, name, digest) {
        let k = choose|k: int|
            0 <= k < artifacts.len() && (#[trigger] artifacts[k]).name == name
                && artifacts[k].sha256 == digest;
        assert(entry_name(entries[files[k].1]) == Ok::<Option<Seq<char>>, ReleaseFault>(
            Some(name),
        ));
    }
    if holds_file(entries, name, digest) {
        let i = choose|i: int|
            0 <= i < entries.len() && entry_name(#[trigger] entries[i]) == Ok::<
                Option<Seq<char>>,
                ReleaseFault,
            >(Some(name)) && entries[i].contents is Ok && hex(
                sha256_of(entries[i].contents->Ok_0@),
            ) == digest;
        let k = choose|k: int| 0 <= k < files.len() && files[k] == (name, i);
        assert(artifacts[k].name == name);
    }
}

proof fn lemma_same_keys<A, B>(
    left: Seq<(Seq<char>, A)>,
    right: Seq<(Seq<char>, B)>,
    key: Seq<char>,
)
    requires
        keys(left) == keys(right),
        lookup(left, key) is Some,
    ensures
        lookup(right, key) is Some,
{
    crate::map::lemma_lookup_some(left, key);
    crate::map::lemma_lookup_some(right, key);
    let i = choose|i: int| 0 <= i < left.len() && #[trigger] left[i].0 == key;
    assert(keys(left).len() == left.len() && keys(right).len() == right.len());
    assert(keys(left)[i] == key);
    assert(keys(right)[i] == key);
    assert(right[i].0 == key);
}

proof fn lemma_unchanged_one(
    artifacts: Seq<ArtifactView>,
    actual: Seq<ArtifactView>,
    places: Seq<(Seq<char>, usize)>,
    count: nat,
    i: int,
)
    requires
        0 <= i < count <= artifacts.len(),
        changed_artifact(artifacts, actual, places, count) is None,
        lookup(places, artifacts[i].name) is Some,
    ensures
        actual[lookup(places, artifacts[i].name)->0 as int].sha256 == artifacts[i].sha256,
        actual[lookup(places, artifacts[i].name)->0 as int].size == artifacts[i].size,
    decreases count,
{
    if i < count - 1 {
        lemma_unchanged_one(artifacts, actual, places, (count - 1) as nat, i);
    }
}

/// Only a directory with exactly the artifacts of the manifest is verified:
/// each with its name, its digest and its size, and none besides.
pub proof fn law_verified_artifacts_are_those_of_the_manifest(
    directory: Seq<char>,
    manifest: ManifestView,
    expected: IdentityView,
    is_directory: bool,
    entries: Seq<FoundEntry>,
    checksums: Result<String, IoError>,
    artifact: ArtifactView,
)
    requires
        manifest_problem(directory, manifest, expected, is_directory, entries, checksums) is None,
        manifest.artifacts.len() <= usize::MAX,
        entries.len() <= usize::MAX,
    ensures
        collected_artifacts(directory, is_directory, entries) is Ok,
        manifest.artifacts.contains(artifact) <==> collected_artifacts(
            directory,
            is_directory,
            entries,
        )->Ok_0.contains(artifact),
{
    let wanted = manifest.artifacts;
    let actual = collected_artifacts(directory, is_directory, entries)->Ok_0;
    lemma_collected_files(directory, entries, artifact.name, artifact.sha256);
    let want = by_name(wanted, "metadata"@, wanted.len())->Ok_0;
    let have = by_name(actual, "directory"@, actual.len())->Ok_0;
    lemma_by_name(wanted, "metadata"@, wanted.len());
    lemma_by_name(actual, "directory"@, actual.len());
    if wanted.contains(artifact) {
        let i = choose|i: int| 0 <= i < wanted.len() && wanted[i] == artifact;
        assert(lookup(want, wanted[i].name) == Some(i as usize));
        lemma_same_keys(want, have, artifact.name);
        lemma_unchanged_one(wanted, actual, have, wanted.len(), i);
        let j = lookup(have, artifact.name)->0 as int;
        assert(actual[j].name == artifact.name);
        assert(actual[j] == artifact);
    }
    if actual.contains(artifact) {
        let j = choose|j: int| 0 <= j < actual.len() && actual[j] == artifact;
        assert(lookup(have, actual[j].name) == Some(j as usize));
        lemma_same_keys(have, want, artifact.name);
        let i = lookup(want, artifact.name)->0 as int;
        assert(wanted[i].name == artifact.name);
        lemma_unchanged_one(wanted, actual, have, wanted.len(), i);
        assert(wanted[i] == artifact);
    }
}

/// A changed directory is not verified, whatever identity is expected: where a
/// file was added to what the manifest was created for, was removed, or got
/// content with another digest, verification fails.
pub proof fn law_a_changed_directory_is_refused(
    directory: Seq<char>,
    before: Seq<FoundEntry>,
    after: Seq<FoundEntry>,
    manifest: ManifestView,
    expected: IdentityView,
    checksums: Result<String, IoError>,
    name: Seq<char>,
    digest: Seq<char>,
)
    requires
        created_manifest(directory, true, before, manifest.identity) == Ok::<
            ManifestView,
            ReleaseFault,
        >(manifest),
        before.len() <= usize::MAX,
        after.len() <= usize::MAX,
        holds_file(before, name, digest) != holds_file(after, name, digest),
    ensures
        manifest_problem(directory, manifest, expected, true, after, checksums) is Some,
{
    lemma_collected_files(directory, before, name, digest);
    if manifest_problem(directory, manifest, expected, true, after, checksums) is None {
        lemma_collected_files(directory, after, name, digest);
        let wanted = manifest.artifacts;
        let actual = collected_artifacts(directory, true, after)->Ok_0;
        if lists(wanted, name, digest) {
            let k = choose|k: int|
                0 <= k < wanted.len() && (#[trigger] wanted[k]).name == name && wanted[k].sha256
                    == digest;
            law_verified_artifacts_are_those_of_the_manifest(
                directory,
                manifest,
                expected,
                true,
                after,
                checksums,
                wanted[k],
            );
            assert(wanted.contains(wanted[k]));
            let j = choose|j: int| 0 <= j < actual.len() && actual[j] == wanted[k];
            assert(actual[j].name == name);
        }
        if lists(actual, name, digest) {
            let k = choose|k: int|
                0 <= k < actual.len() && (#[trigger] actual[k]).name == name && actual[k].sha256
                    == digest;
            law_verified_artifacts_are_those_of_the_manifest(
                directory,
                manifest,
                expected,
                true,
                after,
                checksums,
                actual[k],
            );
            assert(actual.contains(actual[k]));
            let j = choose|j: int| 0 <= j < wanted.len() && wanted[j] == actual[k];
            assert(wanted[j].name == name);
        }
    }
}

/// What was collected on a walk has different names, all of which can be
/// listed.
proof fn lemma_collected_names(directory: Seq<char>, entries: Seq<FoundEntry>)
    requires
        is_walk(entries),
        collected_artifacts(directory, true, entries) is Ok,
    ensures
        distinct_names(collected_artifacts(directory, true, entries)->Ok_0),
        forall|k: int|
            0 <= k < collected_artifacts(directory, true, entries)->Ok_0.len() ==> is_listable(
                (#[trigger] collected_artifacts(directory, true, entries)->Ok_0[k]).name,
            ),
{
    let files = inventory(entries, entries.len())->Ok_0;
    let artifacts = collected_artifacts(directory, true, entries)->Ok_0;
    lemma_inventory(entries, entries.len());
    lemma_artifacts_at(entries, files, files.len());
    assert forall|k: int| 0 <= k < artifacts.len() implies is_listable(
        (#[trigger] artifacts[k]).name,
    ) && entries[files[k].1].kind == EntryKind::File && components(artifacts[k].name)
        == components(entries[files[k].1].relative@) by {
        assert(files[k].1 < entries.len());
        law_artifact_names_are_listable(entries[files[k].1].relative@);
    }
    assert forall|a: int, b: int| 0 <= a < b < artifacts.len() implies (
    #[trigger] artifacts[a]).name != (#[trigger] artifacts[b]).name by {
        let x = files[a].1;
        let y = files[b].1;
        assert(x != y);
        assert(components(artifacts[a].name) == components(entries[x].relative@));
        assert(components(artifacts[b].name) == components(entries[y].relative@));
        if x < y {
            assert(components(entries[x].relative@) != components(entries[y].relative@));
        } else {
            assert(components(entries[y].relative@) != components(entries[x].relative@));
        }
    }
}

/// A manifest that was created for a directory is verified there: where the
/// files are unchanged, the list of checksums is the one that was written, and
/// no more of the identity is expected than the manifest says. A list of
/// checksums takes the star at the start of a name for a mark, so no name may
/// start with one.
pub proof fn law_created_manifest_is_verified(
    directory: Seq<char>,
    entries: Seq<FoundEntry>,
    manifest: ManifestView,
    expected: IdentityView,
    checksums: Result<String, IoError>,
)
    requires
        created_manifest(directory, true, entries, manifest.identity) == Ok::<
            ManifestView,
            ReleaseFault,
        >(manifest),
        is_walk(entries),
        entries.len() <= usize::MAX,
        forall|i: int|
            0 <= i < manifest.artifacts.len() ==> is_digest(
                (#[trigger] manifest.artifacts[i]).sha256,
            ) && manifest.artifacts[i].name[0] != '*',
        checksums matches Ok(text) && text@ == checksums_text(manifest.artifacts),
        identity_problem(manifest.identity, expected) is None,
    ensures
        manifest_problem(directory, manifest, expected, true, entries, checksums) is None,
{
    let artifacts = manifest.artifacts;
    let n = artifacts.len();
    let rows = artifacts.map_values(|a: ArtifactView| checksum_line(a));
    let path = join_path(directory, CHECKSUMS_FILE_NAME@);
    lemma_collected_names(directory, entries);
    lemma_collected_files(directory, entries, artifacts[0].name, artifacts[0].sha256);
    assert forall|i: int| 0 <= i < artifacts.len() implies is_readable(#[trigger] artifacts[i]) by {
        assert(is_listable(artifacts[i].name));
    }
    reveal_strlit("\n");
    assert("\n"@ =~= seq!['\n']);
    assert forall|i: int| 0 <= i < rows.len() implies !(#[trigger] rows[i]).contains('\n')
        && !rows[i].contains('\r') by {
        assert(is_readable(artifacts[i]));
        lemma_line_read_back(path, artifacts[i], 1);
    }
    crate::text::law_rows_are_lines(rows);
    lemma_checksums_read_back(path, artifacts, rows, n);
    lemma_source_is_only_for_messages(artifacts, "metadata"@, "directory"@, n);
    let places = by_name(artifacts, "metadata"@, n)->Ok_0;
    lemma_by_name(artifacts, "metadata"@, n);
    lemma_nothing_changed(artifacts, places, n);
    assert(places.len() > 0) by {
        assert(lookup(places, artifacts[0].name) == Some(0usize));
    }
}

/// Whether a part of an identity is as expected: nothing is expected of it, or
/// it is there and equal.
pub open spec fn part_agrees(actual: Option<Seq<char>>, expected: Option<Seq<char>>) -> bool {
    expected is None || actual == expected
}

/// Whether each of the four parts of an identity is as expected.
pub open spec fn every_part_agrees(actual: IdentityView, expected: IdentityView) -> bool {
    &&& part_agrees(actual.repository, expected.repository)
    &&& part_agrees(actual.release_tag, expected.release_tag)
    &&& part_agrees(actual.source_commit, expected.source_commit)
    &&& part_agrees(actual.workflow_run, expected.workflow_run)
}

/// An identity is accepted exactly where each of its parts, the repository, the
/// release tag, the source commit and the workflow run, is as expected; one
/// that is refused is refused for a part that is not, and the message quotes
/// what was expected of it.
pub proof fn law_an_accepted_identity_agrees_in_every_part(
    actual: IdentityView,
    expected: IdentityView,
)
    ensures
        identity_problem(actual, expected) is None <==> (expected.repository is None
            || actual.repository == expected.repository) && (expected.release_tag is None
            || actual.release_tag == expected.release_tag) && (expected.source_commit is None
            || actual.source_commit == expected.source_commit) && (expected.workflow_run is None
            || actual.workflow_run == expected.workflow_run),
        identity_problem(actual, expected) matches Some(fault) ==> exists|
            part: Seq<char>,
            value: Seq<char>,
        |
            fault == ReleaseFault::Invalid(
                #[trigger] ("release metadata "@ + part + " does not match expected value `"@ + value
                    + "`"@),
            ) && ((part == "repository"@ && expected.repository == Some(value) && actual.repository
                != Some(value)) || (part == "release tag"@ && expected.release_tag == Some(value)
                && actual.release_tag != Some(value)) || (part == "source commit"@
                && expected.source_commit == Some(value) && actual.source_commit != Some(value)) || (
            part == "workflow run"@ && expected.workflow_run == Some(value) && actual.workflow_run
                != Some(value))),
{
}

/// A manifest that is verified was read as it stands, has the supported
/// version, is the expected one in every part of its identity, and has its
/// artifacts, and no others, in the list of checksums with their digests.
pub proof fn law_a_verified_manifest_is_the_expected_one(
    directory: Seq<char>,
    metadata: MetadataRead,
    expected: IdentityView,
    is_directory: bool,
    entries: Seq<FoundEntry>,
    checksums: Result<String, IoError>,
)
    ensures
        verified(directory, metadata, expected, is_directory, entries, checksums) matches Ok(manifest)
            ==> {
            &&& metadata matches MetadataRead::Parsed(read) && manifest == read@
            &&& manifest.manifest_version == MANIFEST_VERSION
            &&& every_part_agrees(manifest.identity, expected)
            &&& is_directory
        },
{
}

/// The list of checksums of a verified release names the artifacts of its
/// manifest with their digests, and nothing else.
pub proof fn law_verified_checksums_are_those_of_the_manifest(
    directory: Seq<char>,
    manifest: ManifestView,
    expected: IdentityView,
    is_directory: bool,
    entries: Seq<FoundEntry>,
    checksums: Result<String, IoError>,
    name: Seq<char>,
    digest: Seq<char>,
)
    requires
        manifest_problem(directory, manifest, expected, is_directory, entries, checksums) is None,
        manifest.artifacts.len() <= usize::MAX,
    ensures
        checksums_of(join_path(directory, CHECKSUMS_FILE_NAME@), checksums) matches Ok(listed) && (
        listed.contains((name, digest)) <==> lists(manifest.artifacts, name, digest)),
{
    let artifacts = manifest.artifacts;
    let wanted = by_name(artifacts, "metadata"@, artifacts.len())->Ok_0;
    lemma_by_name(artifacts, "metadata"@, artifacts.len());
    let listed = digests_by_name(artifacts, wanted);
    assert(listed.len() == wanted.len());
    if listed.contains((name, digest)) {
        let k = choose|k: int| 0 <= k < listed.len() && listed[k] == (name, digest);
        assert(wanted[k].0 == name && artifacts[wanted[k].1 as int].sha256 == digest);
        crate::map::lemma_lookup_index(wanted, k);
        assert(lookup(wanted, name) == Some(wanted[k].1));
        assert(artifacts[wanted[k].1 as int].name == name);
    }
    if lists(artifacts, name, digest) {
        let k = choose|k: int|
            0 <= k < artifacts.len() && (#[trigger] artifacts[k]).name == name
                && artifacts[k].sha256 == digest;
        assert(lookup(wanted, artifacts[k].name) == Some(k as usize));
        crate::map::lemma_lookup_some(wanted, name);
        let i = choose|i: int|
            0 <= i < wanted.len() && #[trigger] wanted[i] == (name, lookup(wanted, name)->0);
        assert(listed[i] == (name, digest));
    }
}

/// A source is verified exactly where the tag can be looked up, a commit is
/// expected, and the checkout and the tag are both at that commit.
pub proof fn law_a_verified_source_is_at_the_expected_commit(
    tag: Seq<char>,
    expected_commit: Seq<char>,
    checkout: Result<Seq<char>, ReleaseFault>,
    tagged: Result<Seq<char>, ReleaseFault>,
)
    ensures
        source_problem(tag, expected_commit, checkout, tagged) is None <==> tag.len() > 0 && tag[0]
            != '-' && (forall|i: int|
            0 <= i < tag.len() ==> !crate::text::is_space(#[trigger] tag[i])) && expected_commit.len()
            > 0 && checkout == Ok::<Seq<char>, ReleaseFault>(expected_commit) && tagged == Ok::<
            Seq<char>,
            ReleaseFault,
        >(expected_commit),
{
    let blank = |c: char| crate::text::is_space(c);
    if !crate::text::any(tag, blank) {
        assert forall|i: int| 0 <= i < tag.len() implies !crate::text::is_space(
            #[trigger] tag[i],
        ) by {
            if blank(tag[i]) {
                assert(crate::text::any(tag, blank));
            }
        }
    } else {
        let i = choose|i: int| 0 <= i < tag.len() && blank(#[trigger] tag[i]);
        assert(crate::text::is_space(tag[i]));
    }
}

/// Checksums hold exactly where each file that is listed lies in the directory,
/// is a plain file and has the digest that is listed for it.
pub proof fn law_checksums_hold_where_every_file_has_its_digest(
    directory: Seq<char>,
    entries: Dimensions,
    probes: Seq<ChecksumProbe>,
    count: nat,
)
    requires
        count <= entries.len(),
        count <= probes.len(),
    ensures
        checksums_problem(directory, entries, probes, count) is None <==> forall|i: int|
            0 <= i < count ==> {
                &&& is_below(join_path(directory, (#[trigger] entries[i]).0), directory)
                &&& probes[i].kind == Ok::<EntryKind, IoError>(EntryKind::File)
                &&& probes[i].contents matches Ok(contents) && hex(sha256_of(contents@))
                    == entries[i].1
            },
    decreases count,
{
    if count > 0 {
        law_checksums_hold_where_every_file_has_its_digest(
            directory,
            entries,
            probes,
            (count - 1) as nat,
        );
        assert(entries[count - 1] == entries[count - 1]);
    }
}

/// A line of a digest, two blanks and a name, which a `*` may precede, lists the
/// name with the digest in small letters.
pub proof fn law_checksum_lines_list_name_and_digest(
    path: Seq<char>,
    digest: Seq<char>,
    name: Seq<char>,
    count: nat,
)
    requires
        is_any_digest(digest),
        is_listable(name),
        name[0] != '*',
    ensures
        checksum_of_line(path, digest + seq![' ', ' '] + name, count) == Ok::<
            Option<(Seq<char>, Seq<char>)>,
            ReleaseFault,
        >(Some((name, lowered(digest)))),
        checksum_of_line(path, digest + seq![' ', ' ', '*'] + name, count) == Ok::<
            Option<(Seq<char>, Seq<char>)>,
            ReleaseFault,
        >(Some((name, lowered(digest)))),
        is_digest(lowered(digest)),
{
    lemma_split_checksum(digest, name);
    let marked = seq!['*'] + name;
    lemma_split_checksum(digest, marked);
    assert(digest + seq![' ', ' '] + marked =~= digest + seq![' ', ' ', '*'] + name);
    assert(marked.skip(1) =~= name);
    assert forall|i: int| 0 <= i < lowered(digest).len() implies is_lower_hex(
        #[trigger] lowered(digest)[i],
    ) by {
        assert(is_hex(digest[i]));
    }
}

proof fn lemma_split_checksum(digest: Seq<char>, rest: Seq<char>)
    requires
        is_any_digest(digest),
    ensures
        split_once(digest + seq![' ', ' '] + rest, "  "@) == Some((digest, rest)),
        trim(digest + seq![' ', ' '] + rest).len() > 0,
{
    reveal_strlit("  ");
    let gap = "  "@;
    assert(gap =~= seq![' ', ' ']);
    let line = digest + gap + rest;
    assert(is_hex(digest[0]));
    assert(line[0] == digest[0]);
    crate::text::lemma_not_blank(line);
    assert(line.subrange(64, 66) =~= gap);
    assert forall|j: int| 0 <= j < 64 implies !#[trigger] crate::text::stands_at(line, gap, j) by {
        if crate::text::stands_at(line, gap, j) {
            assert(line.subrange(j, j + 2)[0] == line[j]);
            assert(is_hex(digest[j]));
        }
    }
    crate::text::lemma_found_at(line, gap, 64);
    assert(line.take(64) =~= digest);
    assert(line.skip(66) =~= rest);
}

/// The list of checksums that is read holds what its lines say, and nothing
/// else; no name is listed twice.
pub proof fn law_listed_checksums_are_those_of_the_lines(
    path: Seq<char>,
    all: Seq<Seq<char>>,
    count: nat,
    name: Seq<char>,
    digest: Seq<char>,
)
    requires
        count <= all.len(),
        checksums_of_lines(path, all, count) is Ok,
    ensures
        sorted(checksums_of_lines(path, all, count)->Ok_0),
        lookup(checksums_of_lines(path, all, count)->Ok_0, name) == Some(digest) <==> exists|i: int|
            0 <= i < count && checksum_of_line(path, #[trigger] all[i], (i + 1) as nat) == Ok::<
                Option<(Seq<char>, Seq<char>)>,
                ReleaseFault,
            >(Some((name, digest))),
    decreases count,
{
    if count > 0 {
        law_listed_checksums_are_those_of_the_lines(path, all, (count - 1) as nat, name, digest);
        let earlier = checksums_of_lines(path, all, (count - 1) as nat)->Ok_0;
        let now = checksums_of_lines(path, all, count)->Ok_0;
        let here = checksum_of_line(path, all[count - 1], count);
        if let Ok(Some((other, value))) = here {
            crate::map::law_insert_lookup(earlier, other, value);
            assert(lookup(now, name) == if name == other {
                Some(value)
            } else {
                lookup(earlier, name)
            });
            if name == other {
                if exists|i: int|
                    0 <= i < count && checksum_of_line(path, #[trigger] all[i], (i + 1) as nat)
                        == Ok::<Option<(Seq<char>, Seq<char>)>, ReleaseFault>(Some((name, digest))) {
                    let i = choose|i: int|
                        0 <= i < count && checksum_of_line(path, #[trigger] all[i], (i + 1) as nat)
                            == Ok::<Option<(Seq<char>, Seq<char>)>, ReleaseFault>(
                            Some((name, digest)),
                        );
                    if i < count - 1 {
                        assert(lookup(earlier, name) == Some(digest));
                    }
                }
                assert(all[count - 1] == all[count - 1]);
            }
        }
        if lookup(earlier, name) == Some(digest) {
            let i = choose|i: int|
                0 <= i < count - 1 && checksum_of_line(path, #[trigger] all[i], (i + 1) as nat)
                    == Ok::<Option<(Seq<char>, Seq<char>)>, ReleaseFault>(Some((name, digest)));
            assert(all[i] == all[i]);
        }
    }
}

/// Whether `entries` hold the file that an artifact describes: under its name,
/// with its digest and its size.
pub open spec fn holds_artifact(entries: Seq<FoundEntry>, artifact: ArtifactView) -> bool {
    exists|i: int|
        0 <= i < entries.len() && entry_name(#[trigger] entries[i]) == Ok::<
            Option<Seq<char>>,
            ReleaseFault,
        >(Some(artifact.name)) && (entries[i].contents matches Ok(contents) && artifact.sha256
            == hex(sha256_of(contents@)) && artifact.size == contents@.len() as u64)
}

/// The artifacts of a directory are the files that belong to the release, each
/// with its name, its digest and its size, in the order of the names.
pub proof fn law_artifacts_are_the_files_of_the_directory(
    directory: Seq<char>,
    entries: Seq<FoundEntry>,
    artifact: ArtifactView,
)
    requires
        collected_artifacts(directory, true, entries) is Ok,
    ensures
        ({
            let all = collected_artifacts(directory, true, entries)->Ok_0;
            &&& all.contains(artifact) <==> holds_artifact(entries, artifact)
            &&& forall|i: int, j: int|
                0 <= i < j < all.len() ==> text_le(
                    (#[trigger] all[i]).name,
                    (#[trigger] all[j]).name,
                )
            &&& forall|i: int|
                0 <= i < entries.len() ==> (#[trigger] entries[i]).kind == EntryKind::File
                    || entries[i].kind == EntryKind::Directory
        }),
{
    let files = inventory(entries, entries.len())->Ok_0;
    lemma_inventory(entries, entries.len());
    lemma_inventory_order(entries, entries.len());
    lemma_artifacts_at(entries, files, files.len());
    let all = artifacts_at(entries, files, files.len())->Ok_0;
    if all.contains(artifact) {
        let k = choose|k: int| 0 <= k < all.len() && all[k] == artifact;
        assert(all[k] == artifact_of(files[k].0, entries[files[k].1].contents->Ok_0@));
        let i = files[k].1;
        assert(entry_name(entries[i]) == Ok::<Option<Seq<char>>, ReleaseFault>(Some(artifact.name)));
    }
    if holds_artifact(entries, artifact) {
        let i = choose|i: int|
            0 <= i < entries.len() && entry_name(#[trigger] entries[i]) == Ok::<
                Option<Seq<char>>,
                ReleaseFault,
            >(Some(artifact.name)) && (entries[i].contents matches Ok(contents) && artifact.sha256
                == hex(sha256_of(contents@)) && artifact.size == contents@.len() as u64);
        assert(files.contains((artifact.name, i)));
        let k = choose|k: int| 0 <= k < files.len() && files[k] == (artifact.name, i);
        assert(all[k] == artifact_of(files[k].0, entries[files[k].1].contents->Ok_0@));
        assert(all[k] == artifact);
    }
    assert forall|i: int, j: int| 0 <= i < j < all.len() implies text_le(
        (#[trigger] all[i]).name,
        (#[trigger] all[j]).name,
    ) by {
        assert(all[i].name == files[i].0 && all[j].name == files[j].0);
    }
    assert forall|i: int| 0 <= i < entries.len() implies (#[trigger] entries[i]).kind
        == EntryKind::File || entries[i].kind == EntryKind::Directory by {
        assert(entry_name(entries[i]) is Ok);
    }
}

proof fn lemma_inventory_order(entries: Seq<FoundEntry>, count: nat)
    requires
        count <= entries.len(),
        inventory(entries, count) is Ok,
    ensures
        forall|a: int, b: int|
            0 <= a < b < inventory(entries, count)->Ok_0.len() ==> text_le(
                (#[trigger] inventory(entries, count)->Ok_0[a]).0,
                (#[trigger] inventory(entries, count)->Ok_0[b]).0,
            ),
    decreases count,
{
    if count > 0 {
        lemma_inventory_order(entries, (count - 1) as nat);
        let earlier = inventory(entries, (count - 1) as nat)->Ok_0;
        if let Ok(Some(name)) = entry_name(entries[count - 1]) {
            lemma_placed_order(earlier, name, count - 1);
        }
    }
}

proof fn lemma_placed_order(files: Seq<(Seq<char>, int)>, name: Seq<char>, place: int)
    requires
        forall|a: int, b: int|
            0 <= a < b < files.len() ==> text_le((#[trigger] files[a]).0, (#[trigger] files[b]).0),
    ensures
        forall|a: int, b: int|
            0 <= a < b < placed(files, name, place).len() ==> text_le(
                (#[trigger] placed(files, name, place)[a]).0,
                (#[trigger] placed(files, name, place)[b]).0,
            ),
        forall|a: int|
            0 <= a < placed(files, name, place).len() ==> (#[trigger] placed(
                files,
                name,
                place,
            )[a]).0 == name || exists|b: int|
                0 <= b < files.len() && #[trigger] files[b].0 == placed(files, name, place)[a].0,
    decreases files.len(),
{
    let now = placed(files, name, place);
    if files.len() == 0 {
    } else if text_le(files[0].0, name) {
        let rest = files.drop_first();
        assert forall|a: int, b: int| 0 <= a < b < rest.len() implies text_le(
            (#[trigger] rest[a]).0,
            (#[trigger] rest[b]).0,
        ) by {
            assert(rest[a] == files[a + 1] && rest[b] == files[b + 1]);
        }
        lemma_placed_order(rest, name, place);
        let tail = placed(rest, name, place);
        assert forall|a: int| 0 <= a < now.len() implies (#[trigger] now[a]).0 == name || exists|
            b: int,
        |
            0 <= b < files.len() && #[trigger] files[b].0 == now[a].0 by {
            if a == 0 {
                assert(files[0].0 == now[0].0);
            } else {
                assert(now[a] == tail[a - 1]);
                if tail[a - 1].0 != name {
                    let b = choose|b: int|
                        0 <= b < rest.len() && #[trigger] rest[b].0 == tail[a - 1].0;
                    assert(files[b + 1].0 == now[a].0);
                }
            }
        }
        assert forall|a: int, b: int| 0 <= a < b < now.len() implies text_le(
            (#[trigger] now[a]).0,
            (#[trigger] now[b]).0,
        ) by {
            assert(now[b] == tail[b - 1]);
            if a > 0 {
                assert(now[a] == tail[a - 1]);
            } else if tail[b - 1].0 != name {
                let c = choose|c: int|
                    0 <= c < rest.len() && #[trigger] rest[c].0 == tail[b - 1].0;
                assert(files[c + 1].0 == now[b].0);
                assert(text_le(files[0].0, files[c + 1].0));
            }
        }
    } else {
        crate::text::lemma_text_lt_total(files[0].0, name);
        assert forall|a: int, b: int| 0 <= a < b < now.len() implies text_le(
            (#[trigger] now[a]).0,
            (#[trigger] now[b]).0,
        ) by {
            assert(now[b] == files[b - 1]);
            if a > 0 {
                assert(now[a] == files[a - 1]);
            } else if b > 1 {
                assert(text_le(files[0].0, files[b - 1].0));
                if files[0].0 != files[b - 1].0 {
                    crate::text::lemma_text_lt_transitive(name, files[0].0, files[b - 1].0);
                }
            }
        }
        assert forall|a: int| 0 <= a < now.len() implies (#[trigger] now[a]).0 == name || exists|
            b: int,
        |
            0 <= b < files.len() && #[trigger] files[b].0 == now[a].0 by {
            if a > 0 {
                assert(files[a - 1].0 == now[a].0);
            }
        }
    }
}

/// An artifact is named by the components of its path with `/` between them,
/// which have to be names without line ends.
pub proof fn law_artifacts_are_named_by_their_components(path: Seq<char>)
    ensures
        name_of(path) is Ok <==> forall|i: int|
            0 <= i < components(path).len() ==> (#[trigger] components(path)[i]) != "/"@
                && components(path)[i] != "."@ && components(path)[i] != ".."@ && !components(
                path,
            )[i].contains('\n') && !components(path)[i].contains('\r'),
        name_of(path) matches Ok(name) ==> name == join(components(path), "/"@),
{
    let parts = components(path);
    if name_of(path) is Ok {
        assert forall|i: int| 0 <= i < parts.len() implies (#[trigger] parts[i]) != "/"@ && parts[i]
            != "."@ && parts[i] != ".."@ && !parts[i].contains('\n') && !parts[i].contains(
            '\r',
        ) by {
            lemma_no_component_problem(path, parts, parts.len(), i);
        }
    } else {
        lemma_some_component_problem(path, parts, parts.len());
    }
}

proof fn lemma_some_component_problem(path: Seq<char>, parts: Seq<Seq<char>>, count: nat)
    requires
        count <= parts.len(),
        component_problem(path, parts, count) is Some,
    ensures
        exists|i: int|
            0 <= i < count && (!is_normal(#[trigger] parts[i]) || parts[i].contains('\n')
                || parts[i].contains('\r')),
    decreases count,
{
    if count > 0 && component_problem(path, parts, (count - 1) as nat) is Some {
        lemma_some_component_problem(path, parts, (count - 1) as nat);
    } else if count > 0 {
        assert(!is_normal(parts[count - 1]) || parts[count - 1].contains('\n')
            || parts[count - 1].contains('\r'));
    }
}

/// Every file below the artifact directory belongs to the release but the two that
/// describe it; a directory is looked into, and nothing else may be there.
pub proof fn law_every_file_but_the_generated_belongs_to_the_release(entry: FoundEntry)
    ensures
        entry.kind is Directory ==> entry_name(entry) == Ok::<Option<Seq<char>>, ReleaseFault>(None),
        entry.kind is Symlink || entry.kind is Other ==> entry_name(entry) is Err,
        entry.kind is File && (entry.relative@ == METADATA_FILE_NAME@ || entry.relative@
            == CHECKSUMS_FILE_NAME@) ==> entry_name(entry) == Ok::<
            Option<Seq<char>>,
            ReleaseFault,
        >(None),
        entry.kind is File && components(entry.relative@).len() != 1 ==> entry_name(entry)
            == match name_of(entry.relative@) {
            Ok(name) => Ok::<Option<Seq<char>>, ReleaseFault>(Some(name)),
            Err(fault) => Err(fault),
        },
        entry.kind is File && components(entry.relative@).len() == 1 && components(
            entry.relative@,
        )[0] != METADATA_FILE_NAME@ && components(entry.relative@)[0] != CHECKSUMS_FILE_NAME@
            && name_of(entry.relative@) is Ok ==> entry_name(entry) == Ok::<
            Option<Seq<char>>,
            ReleaseFault,
        >(Some(name_of(entry.relative@)->Ok_0)),
{
    reveal_strlit("BUILD-METADATA.json");
    reveal_strlit("SHA256SUMS");
    lemma_plain_component(METADATA_FILE_NAME@);
    lemma_plain_component(CHECKSUMS_FILE_NAME@);
}

proof fn lemma_plain_component(name: Seq<char>)
    requires
        name.len() > 1,
        !name.contains('/'),
    ensures
        components(name) == seq![name],
{
    reveal_strlit(".");
    crate::text::lemma_position_bounds(name, '/');
    let pieces = crate::text::split(name, '/');
    assert(pieces =~= seq![name]);
    reveal_with_fuel(crate::path::named_pieces, 2);
    assert(pieces.drop_last() =~= seq![]);
    assert(crate::path::named_pieces(pieces) =~= seq![name]);
    assert(name[0] != '/') by {
        assert(name.contains(name[0]));
    }
    assert(components(name) =~= seq![name]);
}

/// What Git is taken to have answered is what it printed, without the blanks around
/// it, and only where it could be run and succeeded.
pub proof fn law_only_a_successful_command_answers(
    args: Seq<Seq<char>>,
    output: Result<GitOutput, IoError>,
)
    ensures
        git_answer(args, output) is Ok <==> (output matches Ok(done) && done.success),
        git_answer(args, output) matches Ok(answer) ==> answer == trim(
            lossy(output->Ok_0.stdout@),
        ),
        git_answer(args, output) matches Err(fault) ==> fault is Command,
{
}

/// A manifest is made exactly where there is something to release: it has the
/// identity that was asked for and every artifact, in the current format.
pub proof fn law_an_empty_release_is_refused(
    directory: Seq<char>,
    is_directory: bool,
    entries: Seq<FoundEntry>,
    identity: IdentityView,
)
    ensures
        created_manifest(directory, is_directory, entries, identity) is Ok <==> (
        collected_artifacts(directory, is_directory, entries) matches Ok(artifacts)
            && artifacts.len() > 0),
        created_manifest(directory, is_directory, entries, identity) matches Ok(manifest)
            ==> manifest.identity == identity && manifest.artifacts == collected_artifacts(
            directory,
            is_directory,
            entries,
        )->Ok_0 && manifest.manifest_version == MANIFEST_VERSION,
        !is_directory ==> created_manifest(directory, is_directory, entries, identity) is Err,
{
}

} // verus!
