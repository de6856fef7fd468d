//! Cache entries: what is written for a task that succeeded, and what is read
//! back.

use vstd::prelude::*;
use vstd::string::StringExecFns;

use crate::cache::error::{CacheError, CacheFault};
use crate::cache::hash::{
    copy_bytes, ensure_inside, ensure_no_symlink_components, escaping_path, file_digest, hex,
    is_safe_path, sha256_of, symlink_problem, unsafe_path, validate_cached_path,
};
use crate::cache::key::{read_files, ReadFile, ReadFileView, CACHE_FORMAT_VERSION};
use crate::cache::pattern::{all_compiled, collect_files, collected, WalkEntry};
use crate::io::{IoError, IoErrorKind};
use crate::path::{is_below, join_path, join_paths, law_joined_path_is_below};
use crate::project::planned::PlannedTask;
use crate::runner::stream::{CapturedOutput, CapturedView};
use crate::text::{number, same, texts};

verus! {

/// What keeps cache entries out of version control.
pub const CACHE_GITIGNORE: &'static str = "*\n!.gitignore\n";

/// An output file of a task, as its cache entry lists it.
#[derive(Debug, Clone, PartialEq, Eq)]
pub struct CachedOutput {
    pub path: String,
    pub sha256: String,
    pub mode: Option<u32>,
}

/// What a `CachedOutput` says.
pub struct CachedOutputView {
    pub path: Seq<char>,
    pub sha256: Seq<char>,
    pub mode: Option<u32>,
}

impl View for CachedOutput {
    type V = CachedOutputView;

    open spec fn view(&self) -> CachedOutputView {
        CachedOutputView { path: self.path@, sha256: self.sha256@, mode: self.mode }
    }
}

/// What a list of outputs says.
pub open spec fn output_views(outputs: Seq<CachedOutput>) -> Seq<CachedOutputView> {
    outputs.map_values(|o: CachedOutput| o@)
}

/// The description of a cache entry.
#[derive(Debug, Clone, PartialEq, Eq)]
pub struct CacheMetadata {
    pub version: u32,
    pub key: String,
    pub outputs: Vec<CachedOutput>,
}

/// What a `CacheMetadata` says.
pub struct MetadataView {
    pub version: u32,
    pub key: Seq<char>,
    pub outputs: Seq<CachedOutputView>,
}

impl View for CacheMetadata {
    type V = MetadataView;

    open spec fn view(&self) -> MetadataView {
        MetadataView {
            version: self.version,
            key: self.key@,
            outputs: output_views(self.outputs@),
        }
    }
}

/// The directory of cache entries of a project.
#[derive(Debug, Clone, PartialEq, Eq)]
pub struct CacheStore {
    pub root: String,
}

/// The directory of cache entries of a project.
pub open spec fn store_root(project_root: Seq<char>) -> Seq<char> {
    join_path(join_path(project_root, ".mono"@), "cache"@)
}

/// What was found about one output of a cache entry.
#[derive(Debug)]
pub struct OutputObservation {
    /// Whether the stored copy is a plain file.
    pub plain: Result<bool, IoError>,
    /// The content of the stored copy.
    pub contents: Result<Vec<u8>, IoError>,
    /// Of each step from the project root to the destination, whether it is a
    /// symbolic link.
    pub probes: Vec<Result<bool, IoError>>,
}

/// What was found about a cache entry.
#[derive(Debug)]
pub struct EntryObservation {
    /// The description, or nothing where it could not be understood.
    pub metadata: Result<Option<CacheMetadata>, IoError>,
    pub stdout: Result<Vec<u8>, IoError>,
    pub stderr: Result<Vec<u8>, IoError>,
    pub outputs: Vec<OutputObservation>,
}

/// An output file to restore.
#[derive(Debug, Clone, PartialEq, Eq)]
pub struct Restore {
    pub source: String,
    pub destination: String,
    pub mode: Option<u32>,
}

/// What a `Restore` says.
pub struct RestoreView {
    pub source: Seq<char>,
    pub destination: Seq<char>,
    pub mode: Option<u32>,
}

impl View for Restore {
    type V = RestoreView;

    open spec fn view(&self) -> RestoreView {
        RestoreView { source: self.source@, destination: self.destination@, mode: self.mode }
    }
}

/// What a list of files to restore says.
pub open spec fn restore_views(restores: Seq<Restore>) -> Seq<RestoreView> {
    restores.map_values(|r: Restore| r@)
}

/// A cache entry that can be replayed.
#[derive(Debug, Clone, PartialEq, Eq)]
pub struct CacheHit {
    pub output: CapturedOutput,
    pub restores: Vec<Restore>,
}

/// What a `CacheHit` says.
pub struct HitView {
    pub output: CapturedView,
    pub restores: Seq<RestoreView>,
}

impl View for CacheHit {
    type V = HitView;

    open spec fn view(&self) -> HitView {
        HitView { output: self.output@, restores: restore_views(self.restores@) }
    }
}

/// The view of a look into the cache.
pub open spec fn found_view(found: Result<Option<CacheHit>, CacheError>) -> Result<
    Option<HitView>,
    CacheFault,
> {
    match found {
        Ok(Some(hit)) => Ok(Some(hit@)),
        Ok(None) => Ok(None),
        Err(e) => Err(e@),
    }
}

/// A file of an entry: a missing one makes the entry unusable, any other
/// failure is reported.
pub open spec fn entry_file(path: Seq<char>, read: Result<Vec<u8>, IoError>) -> Result<
    Option<Seq<u8>>,
    CacheFault,
> {
    match read {
        Ok(contents) => Ok(Some(contents@)),
        Err(error) => if error.kind == IoErrorKind::NotFound {
            Ok(None)
        } else {
            Err(CacheFault::Io { path, source: error@ })
        },
    }
}

/// The description of an entry, where it is there and meant for `key`.
pub open spec fn entry_metadata(
    path: Seq<char>,
    key: Seq<char>,
    read: Result<Option<CacheMetadata>, IoError>,
) -> Result<Option<MetadataView>, CacheFault> {
    match read {
        Ok(Some(metadata)) => if metadata.version == CACHE_FORMAT_VERSION && metadata.key@ == key {
            Ok(Some(metadata@))
        } else {
            Ok(None)
        },
        Ok(None) => Ok(None),
        Err(error) => if error.kind == IoErrorKind::NotFound {
            Ok(None)
        } else {
            Err(CacheFault::Io { path, source: error@ })
        },
    }
}

/// What to restore for one output of an entry. The stored copy has to be a
/// plain file with the recorded digest, and the way to the destination free of
/// symbolic links.
pub open spec fn output_restore(
    root: Seq<char>,
    entry: Seq<char>,
    output: CachedOutputView,
    seen: OutputObservation,
) -> Result<Option<RestoreView>, CacheFault> {
    let source = join_path(join_path(entry, "outputs"@), output.path);
    let destination = join_path(root, output.path);
    if !is_safe_path(output.path) {
        Err(unsafe_path(output.path))
    } else {
        match seen.plain {
            Err(error) => if error.kind == IoErrorKind::NotFound {
                Ok(None)
            } else {
                Err(CacheFault::Io { path: source, source: error@ })
            },
            Ok(false) => Ok(None),
            Ok(true) => match seen.contents {
                Err(error) => Err(CacheFault::Io { path: source, source: error@ }),
                Ok(contents) => if hex(sha256_of(contents@)) != output.sha256 {
                    Ok(None)
                } else {
                    match symlink_problem(root, destination, seen.probes@) {
                        Some(fault) => Err(fault),
                        None => Ok(Some(RestoreView { source, destination, mode: output.mode })),
                    }
                },
            },
        }
    }
}

/// What to restore for the first `count` outputs of an entry. An output that
/// nothing was found about makes the entry unusable.
pub open spec fn output_restores(
    root: Seq<char>,
    entry: Seq<char>,
    outputs: Seq<CachedOutputView>,
    seen: Seq<OutputObservation>,
    count: nat,
) -> Result<Option<Seq<RestoreView>>, CacheFault>
    decreases count,
{
    if count == 0 {
        Ok(Some(Seq::empty()))
    } else {
        match output_restores(root, entry, outputs, seen, (count - 1) as nat) {
            Err(fault) => Err(fault),
            Ok(None) => Ok(None),
            Ok(Some(earlier)) => if count > seen.len() {
                Ok(None)
            } else {
                match output_restore(root, entry, outputs[count - 1], seen[count - 1]) {
                    Err(fault) => Err(fault),
                    Ok(None) => Ok(None),
                    Ok(Some(restore)) => Ok(Some(earlier.push(restore))),
                }
            },
        }
    }
}

/// What a look for `key` comes to.
pub open spec fn found(
    root: Seq<char>,
    entry: Seq<char>,
    key: Seq<char>,
    seen: EntryObservation,
) -> Result<Option<HitView>, CacheFault> {
    match entry_metadata(join_path(entry, "metadata.json"@), key, seen.metadata) {
        Err(fault) => Err(fault),
        Ok(None) => Ok(None),
        Ok(Some(metadata)) => match entry_file(join_path(entry, "stdout"@), seen.stdout) {
            Err(fault) => Err(fault),
            Ok(None) => Ok(None),
            Ok(Some(stdout)) => match entry_file(join_path(entry, "stderr"@), seen.stderr) {
                Err(fault) => Err(fault),
                Ok(None) => Ok(None),
                Ok(Some(stderr)) => match output_restores(
                    root,
                    entry,
                    metadata.outputs,
                    seen.outputs@,
                    metadata.outputs.len(),
                ) {
                    Err(fault) => Err(fault),
                    Ok(None) => Ok(None),
                    Ok(Some(restores)) => Ok(
                        Some(HitView { output: CapturedView { stdout, stderr }, restores }),
                    ),
                },
            },
        },
    }
}

proof fn lemma_restores_stay(
    root: Seq<char>,
    entry: Seq<char>,
    outputs: Seq<CachedOutputView>,
    seen: Seq<OutputObservation>,
    k: nat,
    count: nat,
)
    requires
        k <= count,
        !(output_restores(root, entry, outputs, seen, k) matches Ok(Some(_))),
    ensures
        output_restores(root, entry, outputs, seen, count) == output_restores(
            root,
            entry,
            outputs,
            seen,
            k,
        ),
    decreases count,
{
    if k < count {
        lemma_restores_stay(root, entry, outputs, seen, k, (count - 1) as nat);
    }
}

fn read_entry_file(path: &str, read: &Result<Vec<u8>, IoError>) -> (r: Result<
    Option<Vec<u8>>,
    CacheError,
>)
    ensures
        entry_file(path@, *read) == (match r {
            Ok(Some(contents)) => Ok::<Option<Seq<u8>>, CacheFault>(Some(contents@)),
            Ok(None) => Ok(None),
            Err(e) => Err(e@),
        }),
{
    match read {
        Ok(contents) => Ok(Some(copy_bytes(contents))),
        Err(error) => {
            if error.kind == IoErrorKind::NotFound {
                Ok(None)
            } else {
                Err(CacheError::Io { path: path.to_owned(), source: error.copy() })
            }
        },
    }
}

/// What to restore for one output of an entry.
pub fn check_output(
    root: &str,
    entry: &str,
    output: &CachedOutput,
    seen: &OutputObservation,
) -> (r: Result<Option<Restore>, CacheError>)
    ensures
        output_restore(root@, entry@, output@, *seen) == (match r {
            Ok(Some(restore)) => Ok::<Option<RestoreView>, CacheFault>(Some(restore@)),
            Ok(None) => Ok(None),
            Err(e) => Err(e@),
        }),
{
    let relative = match validate_cached_path(output.path.as_str()) {
        Err(e) => {
            return Err(e);
        },
        Ok(relative) => relative,
    };
    let source = join_paths(join_paths(entry, "outputs").as_str(), relative.as_str());
    match &seen.plain {
        Err(error) => {
            if error.kind == IoErrorKind::NotFound {
                return Ok(None);
            }
            return Err(CacheError::Io { path: source, source: error.copy() });
        },
        Ok(plain) => {
            if !*plain {
                return Ok(None);
            }
        },
    }
    match &seen.contents {
        Err(error) => {
            return Err(CacheError::Io { path: source, source: error.copy() });
        },
        Ok(contents) => {
            if !same(file_digest(contents).as_str(), output.sha256.as_str()) {
                return Ok(None);
            }
        },
    }
    let destination = join_paths(root, relative.as_str());
    match ensure_no_symlink_components(root, destination.as_str(), &seen.probes) {
        Err(e) => {
            return Err(e);
        },
        Ok(_) => {},
    }
    Ok(Some(Restore { source, destination, mode: output.mode }))
}

impl CacheStore {
    pub fn new(project_root: &str) -> (r: CacheStore)
        ensures
            r.root@ == store_root(project_root@),
    {
        CacheStore { root: join_paths(join_paths(project_root, ".mono").as_str(), "cache") }
    }

    /// The directory of the entry for `key`.
    pub fn entry_path(&self, key: &str) -> (r: String)
        ensures
            r@ == join_path(self.root@, key@),
    {
        join_paths(self.root.as_str(), key)
    }

    /// The directory in which an entry is prepared.
    pub fn temporary_path(&self, process: u32, counter: u64) -> (r: String)
        ensures
            r@ == join_path(
                self.root@,
                ".tmp-"@ + crate::text::decimal(process as nat) + "-"@ + crate::text::decimal(
                    counter as nat,
                ),
            ),
    {
        let mut name = ".tmp-".to_owned();
        name.append(number(process as u128).as_str());
        name.append("-");
        name.append(number(counter as u128).as_str());
        join_paths(self.root.as_str(), name.as_str())
    }

    /// What a look for `key` comes to, given what was found on disk.
    pub fn lookup(&self, task: &PlannedTask, key: &str, seen: &EntryObservation) -> (r: Result<
        Option<CacheHit>,
        CacheError,
    >)
        ensures
            found_view(r) == found(task@.root, join_path(self.root@, key@), key@, *seen),
    {
        let entry = self.entry_path(key);
        let metadata = match &seen.metadata {
            Err(error) => {
                if error.kind == IoErrorKind::NotFound {
                    return Ok(None);
                }
                return Err(
                    CacheError::Io {
                        path: join_paths(entry.as_str(), "metadata.json"),
                        source: error.copy(),
                    },
                );
            },
            Ok(None) => {
                return Ok(None);
            },
            Ok(Some(metadata)) => metadata,
        };
        if metadata.version != CACHE_FORMAT_VERSION || !same(metadata.key.as_str(), key) {
            return Ok(None);
        }
        let stdout = match read_entry_file(
            join_paths(entry.as_str(), "stdout").as_str(),
            &seen.stdout,
        ) {
            Err(e) => {
                return Err(e);
            },
            Ok(None) => {
                return Ok(None);
            },
            Ok(Some(stdout)) => stdout,
        };
        let stderr = match read_entry_file(
            join_paths(entry.as_str(), "stderr").as_str(),
            &seen.stderr,
        ) {
            Err(e) => {
                return Err(e);
            },
            Ok(None) => {
                return Ok(None);
            },
            Ok(Some(stderr)) => stderr,
        };
        let ghost outputs = output_views(metadata.outputs@);
        let ghost total = outputs.len();
        let mut restores: Vec<Restore> = Vec::new();
        assert(restore_views(restores@) =~= Seq::empty());
        let mut i: usize = 0;
        while i < metadata.outputs.len()
            invariant
                i <= metadata.outputs@.len(),
                outputs == output_views(metadata.outputs@),
                total == outputs.len(),
                entry@ == join_path(self.root@, key@),
                seen.metadata matches Ok(Some(m)) && m == *metadata,
                metadata.version == CACHE_FORMAT_VERSION,
                metadata.key@ == key@,
                entry_file(join_path(entry@, "stdout"@), seen.stdout) == Ok::<
                    Option<Seq<u8>>,
                    CacheFault,
                >(Some(stdout@)),
                entry_file(join_path(entry@, "stderr"@), seen.stderr) == Ok::<
                    Option<Seq<u8>>,
                    CacheFault,
                >(Some(stderr@)),
                output_restores(task@.root, entry@, outputs, seen.outputs@, i as nat) == Ok::<
                    Option<Seq<RestoreView>>,
                    CacheFault,
                >(Some(restore_views(restores@))),
            decreases metadata.outputs.len() - i,
        {
            let ghost before = restore_views(restores@);
            assert(outputs[i as int] == metadata.outputs[i as int]@);
            if i >= seen.outputs.len() {
                proof {
                    lemma_restores_stay(
                        task@.root,
                        entry@,
                        outputs,
                        seen.outputs@,
                        (i + 1) as nat,
                        total,
                    );
                }
                return Ok(None);
            }
            match check_output(
                task.root.as_str(),
                entry.as_str(),
                &metadata.outputs[i],
                &seen.outputs[i],
            ) {
                Err(e) => {
                    proof {
                        lemma_restores_stay(
                            task@.root,
                            entry@,
                            outputs,
                            seen.outputs@,
                            (i + 1) as nat,
                            total,
                        );
                    }
                    return Err(e);
                },
                Ok(None) => {
                    proof {
                        lemma_restores_stay(
                            task@.root,
                            entry@,
                            outputs,
                            seen.outputs@,
                            (i + 1) as nat,
                            total,
                        );
                    }
                    return Ok(None);
                },
                Ok(Some(restore)) => {
                    restores.push(restore);
                    assert(restore_views(restores@) =~= before.push(restore@));
                },
            }
            i += 1;
        }
        Ok(Some(CacheHit { output: CapturedOutput { stdout, stderr }, restores }))
    }
}

/// The description of the entry for the given output files.
pub open spec fn described(key: Seq<char>, files: Seq<ReadFileView>) -> MetadataView {
    MetadataView {
        version: CACHE_FORMAT_VERSION,
        key,
        outputs: files.map_values(
            |f: ReadFileView|
                CachedOutputView { path: f.path, sha256: hex(sha256_of(f.contents)), mode: f.mode },
        ),
    }
}

/// The first of `count` output files that does not lie below `root`.
pub open spec fn escaping_output(root: Seq<char>, files: Seq<ReadFileView>, count: nat) -> Option<
    CacheFault,
>
    decreases count,
{
    if count == 0 {
        None
    } else {
        match escaping_output(root, files, (count - 1) as nat) {
            Some(fault) => Some(fault),
            None => {
                let source = join_path(root, files[count - 1].path);
                if is_below(source, root) {
                    None
                } else {
                    Some(escaping_path(source))
                }
            },
        }
    }
}

proof fn lemma_escaping_stays(root: Seq<char>, files: Seq<ReadFileView>, k: nat, count: nat)
    requires
        k <= count,
        escaping_output(root, files, k) is Some,
    ensures
        escaping_output(root, files, count) == escaping_output(root, files, k),
    decreases count,
{
    if k < count {
        lemma_escaping_stays(root, files, k, (count - 1) as nat);
    }
}

/// The output files of a task, among those that a walk found.
pub fn output_files(task: &PlannedTask, entries: &Vec<WalkEntry>) -> (r: Result<
    Vec<String>,
    CacheError,
>)
    ensures
        match r {
            Ok(files) => collected(all_compiled(task@.outputs), entries@, "output"@) == Ok::<
                Seq<Seq<char>>,
                CacheFault,
            >(texts(files@)),
            Err(e) => collected(all_compiled(task@.outputs), entries@, "output"@) == Err::<
                Seq<Seq<char>>,
                CacheFault,
            >(e@),
        },
{
    collect_files(entries, &task.outputs, "output")
}

/// The description of the entry for a task whose output files are `files`.
pub fn store_metadata(task: &PlannedTask, key: &str, files: &Vec<ReadFile>) -> (r: Result<
    CacheMetadata,
    CacheError,
>)
    ensures
        match r {
            Ok(metadata) => escaping_output(task@.root, read_files(files@), files@.len()) is None
                && metadata@ == described(key@, read_files(files@)),
            Err(e) => escaping_output(task@.root, read_files(files@), files@.len()) == Some(e@),
        },
{
    let ghost all = read_files(files@);
    let ghost wanted = described(key@, all).outputs;
    let mut outputs: Vec<CachedOutput> = Vec::new();
    assert(output_views(outputs@) =~= wanted.take(0));
    let mut i: usize = 0;
    while i < files.len()
        invariant
            i <= files@.len(),
            all == read_files(files@),
            wanted == described(key@, all).outputs,
            escaping_output(task@.root, all, i as nat) is None,
            output_views(outputs@) == wanted.take(i as int),
        decreases files.len() - i,
    {
        let file = &files[i];
        assert(all[i as int] == file@);
        let ghost before = output_views(outputs@);
        let source = join_paths(task.root.as_str(), file.path.as_str());
        match ensure_inside(task.root.as_str(), source.as_str()) {
            Err(e) => {
                proof {
                    lemma_escaping_stays(task@.root, all, (i + 1) as nat, all.len());
                }
                return Err(e);
            },
            Ok(_) => {},
        }
        let output = CachedOutput {
            path: file.path.clone(),
            sha256: file_digest(&file.contents),
            mode: file.mode,
        };
        outputs.push(output);
        assert(output_views(outputs@) =~= before.push(output@));
        i += 1;
        assert(output_views(outputs@) =~= wanted.take(i as int));
    }
    assert(wanted.take(i as int) =~= wanted);
    Ok(CacheMetadata { version: CACHE_FORMAT_VERSION, key: key.to_owned(), outputs })
}

/// What becomes of a prepared entry.
#[derive(Debug, Clone, Copy, PartialEq, Eq, Structural)]
pub enum Publication {
    /// It goes where no entry is yet.
    Publish,
    /// It takes the place of the entry that is there.
    Replace,
    /// It is dropped for the entry that is there.
    Keep,
}

/// What becomes of a prepared entry, given whether there is an entry for its
/// key already and whether entries are to be refreshed.
pub open spec fn published(exists: bool, refresh: bool) -> Publication {
    if exists && refresh {
        Publication::Replace
    } else if exists {
        Publication::Keep
    } else {
        Publication::Publish
    }
}

/// What is held for a key once a prepared entry has been dealt with.
pub open spec fn held_after<E>(held: Option<E>, prepared: E, refresh: bool) -> E {
    match published(held is Some, refresh) {
        Publication::Publish => prepared,
        Publication::Replace => prepared,
        Publication::Keep => held->0,
    }
}

/// What becomes of a prepared entry, given whether there is an entry for its
/// key already and whether entries are to be refreshed.
pub fn publication(exists: bool, refresh: bool) -> (r: Publication)
    ensures
        r == published(exists, refresh),
{
    if !exists {
        Publication::Publish
    } else if refresh {
        Publication::Replace
    } else {
        Publication::Keep
    }
}

/// What putting a prepared entry in place comes to: an entry that another run
/// has put there meanwhile is as good.
pub fn store_outcome(entry: &str, renamed: Result<(), IoError>) -> (r: Result<(), CacheError>)
    ensures
        match r {
            Ok(_) => renamed matches Err(error) ==> error.kind == IoErrorKind::AlreadyExists,
            Err(e) => renamed matches Err(error) && error.kind != IoErrorKind::AlreadyExists && e@
                == (CacheFault::Io { path: entry@, source: error@ }),
        },
{
    match renamed {
        Ok(_) => Ok(()),
        Err(error) => {
            if error.kind == IoErrorKind::AlreadyExists {
                Ok(())
            } else {
                Err(CacheError::Io { path: entry.to_owned(), source: error })
            }
        },
    }
}

/// Whether the ignore file has to be written, given what was read of it.
pub fn needs_gitignore(path: &str, read: &Result<Vec<u8>, IoError>) -> (r: Result<
    bool,
    CacheError,
>)
    ensures
        match r {
            Ok(write) => match *read {
                Ok(contents) => write == (contents@ != vstd::utf8::encode_utf8(CACHE_GITIGNORE@)),
                Err(error) => error.kind == IoErrorKind::NotFound && write,
            },
            Err(e) => *read matches Err(error) && error.kind != IoErrorKind::NotFound && e@ == (
            CacheFault::Io { path: path@, source: error@ }),
        },
{
    match read {
        Ok(contents) => Ok(!same_bytes(contents, CACHE_GITIGNORE)),
        Err(error) => {
            if error.kind == IoErrorKind::NotFound {
                Ok(true)
            } else {
                Err(CacheError::Io { path: path.to_owned(), source: error.copy() })
            }
        },
    }
}

fn same_bytes(bytes: &Vec<u8>, text: &str) -> (r: bool)
    ensures
        r == (bytes@ == vstd::utf8::encode_utf8(text@)),
{
    let other = text.as_bytes();
    if bytes.len() != other.len() {
        return false;
    }
    let mut i: usize = 0;
    while i < bytes.len()
        invariant
            bytes@.len() == other@.len(),
            i <= bytes@.len(),
            forall|k: int| 0 <= k < i ==> bytes@[k] == other@[k],
            other@ == vstd::utf8::encode_utf8(text@),
        decreases bytes.len() - i,
    {
        if bytes[i] != other[i] {
            assert(bytes@[i as int] != other@[i as int]);
            return false;
        }
        i += 1;
    }
    assert(bytes@ =~= other@);
    true
}

/// Whether nothing on the way is known to be a link, and nothing failed.
pub open spec fn clear_way(probes: Seq<Result<bool, IoError>>) -> bool {
    forall|k: int|
        0 <= k < probes.len() ==> match #[trigger] probes[k] {
            Ok(link) => !link,
            Err(error) => error.kind == IoErrorKind::NotFound,
        }
}

proof fn lemma_clear_way(
    current: Seq<char>,
    parts: Seq<Seq<char>>,
    probes: Seq<Result<bool, IoError>>,
)
    requires
        clear_way(probes),
    ensures
        crate::cache::hash::symlink_on_way(current, parts, probes) is None,
    decreases parts.len(),
{
    if parts.len() > 0 && probes.len() > 0 {
        assert(match probes[0] {
            Ok(link) => !link,
            Err(error) => error.kind == IoErrorKind::NotFound,
        });
        let rest = probes.drop_first();
        assert forall|k: int| 0 <= k < rest.len() implies match #[trigger] rest[k] {
            Ok(link) => !link,
            Err(error) => error.kind == IoErrorKind::NotFound,
        } by {
            assert(rest[k] == probes[k + 1]);
        }
        lemma_clear_way(join_path(current, parts[0]), parts.drop_first(), rest);
    }
}

/// Whether the stored copy of `file` is there, unchanged, and may be restored.
pub open spec fn is_intact(file: ReadFileView, seen: OutputObservation) -> bool {
    &&& is_safe_path(file.path)
    &&& seen.plain == Ok::<bool, IoError>(true)
    &&& seen.contents matches Ok(contents) && contents@ == file.contents
    &&& clear_way(seen.probes@)
}

/// A stored entry is found again: where the description that was written and
/// the files that were copied are read back unchanged, the look succeeds, and
/// every output goes back to where it came from, with its mode.
pub proof fn law_stored_entry_is_found(
    root: Seq<char>,
    entry: Seq<char>,
    key: Seq<char>,
    files: Seq<ReadFileView>,
    stdout: Seq<u8>,
    stderr: Seq<u8>,
    seen: EntryObservation,
)
    requires
        seen.metadata matches Ok(Some(metadata)) && metadata@ == described(key, files),
        seen.stdout matches Ok(out) && out@ == stdout,
        seen.stderr matches Ok(err) && err@ == stderr,
        seen.outputs@.len() >= files.len(),
        forall|i: int| 0 <= i < files.len() ==> is_intact(#[trigger] files[i], seen.outputs@[i]),
    ensures
        found(root, entry, key, seen) == Ok::<Option<HitView>, CacheFault>(
            Some(
                HitView {
                    output: CapturedView { stdout, stderr },
                    restores: files.map_values(
                        |f: ReadFileView|
                            RestoreView {
                                source: join_path(join_path(entry, "outputs"@), f.path),
                                destination: join_path(root, f.path),
                                mode: f.mode,
                            },
                    ),
                },
            ),
        ),
{
    lemma_outputs_restored(root, entry, key, files, seen.outputs@, files.len());
    assert(restored(root, entry, files).take(files.len() as int) =~= restored(root, entry, files));
}

/// A forced run refreshes its entry: whatever was held for the key before, the
/// next look replays what the run stored.
pub proof fn law_a_forced_run_refreshes_its_entry(
    root: Seq<char>,
    entry: Seq<char>,
    key: Seq<char>,
    files: Seq<ReadFileView>,
    stdout: Seq<u8>,
    stderr: Seq<u8>,
    held: Option<EntryObservation>,
    stored: EntryObservation,
)
    requires
        stored.metadata matches Ok(Some(metadata)) && metadata@ == described(key, files),
        stored.stdout matches Ok(out) && out@ == stdout,
        stored.stderr matches Ok(err) && err@ == stderr,
        stored.outputs@.len() >= files.len(),
        forall|i: int| 0 <= i < files.len() ==> is_intact(#[trigger] files[i], stored.outputs@[i]),
    ensures
        found(root, entry, key, held_after(held, stored, true)) == Ok::<
            Option<HitView>,
            CacheFault,
        >(
            Some(
                HitView {
                    output: CapturedView { stdout, stderr },
                    restores: restored(root, entry, files),
                },
            ),
        ),
{
    law_stored_entry_is_found(root, entry, key, files, stdout, stderr, stored);
}

/// Where the files of an entry go.
pub open spec fn restored(root: Seq<char>, entry: Seq<char>, files: Seq<ReadFileView>) -> Seq<
    RestoreView,
> {
    files.map_values(
        |f: ReadFileView|
            RestoreView {
                source: join_path(join_path(entry, "outputs"@), f.path),
                destination: join_path(root, f.path),
                mode: f.mode,
            },
    )
}

proof fn lemma_outputs_restored(
    root: Seq<char>,
    entry: Seq<char>,
    key: Seq<char>,
    files: Seq<ReadFileView>,
    seen: Seq<OutputObservation>,
    count: nat,
)
    requires
        count <= files.len() <= seen.len(),
        forall|i: int| 0 <= i < files.len() ==> is_intact(#[trigger] files[i], seen[i]),
    ensures
        output_restores(root, entry, described(key, files).outputs, seen, count) == Ok::<
            Option<Seq<RestoreView>>,
            CacheFault,
        >(Some(restored(root, entry, files).take(count as int))),
    decreases count,
{
    if count > 0 {
        let k = count - 1;
        lemma_outputs_restored(root, entry, key, files, seen, k as nat);
        assert(is_intact(files[k], seen[k]));
        law_joined_path_is_below(root, files[k].path);
        let destination = join_path(root, files[k].path);
        lemma_clear_way(
            root,
            crate::path::components(destination).skip(crate::path::components(root).len() as int),
            seen[k].probes@,
        );
        assert(restored(root, entry, files).take(k).push(restored(root, entry, files)[k])
            =~= restored(root, entry, files).take(count as int));
    } else {
        assert(restored(root, entry, files).take(0) =~= Seq::empty());
    }
}

} // verus!
