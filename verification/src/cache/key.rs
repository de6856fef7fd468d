//! The key under which the outcome of a task is cached.

use vstd::prelude::*;
use vstd::string::StringExecFns;
use vstd::utf8::encode_utf8;

use crate::cache::error::{CacheError, CacheFault};
use crate::cache::hash::{
    fits_frame, framed, framed_bytes, framed_file, framed_list, hex, law_files_are_told_apart,
    law_framing_is_unambiguous, law_framing_keeps_boundaries, sha256_of, Transcript,
};
use crate::cache::pattern::{
    all_compiled, collect_files, collected, law_collecting_gives_the_selected_files, selects,
    walks_over, CachePatterns, EntryKind, PatternView, WalkEntry,
};
use crate::map::{
    inserted, keys, law_a_key_gives_the_value_held_with_it, law_insert_lookup, lemma_lookup_index,
    lemma_lookup_some, lookup, sorted, TextMap,
};
use crate::path::{is_below, relative_to, strip_base};
use crate::project::matrix::{
    lemma_text_entries_inserted, lemma_text_entries_lookup, text_entries, Dimensions,
};
use crate::project::planned::{PlannedTask, PlannedTaskView};
use crate::sublist::{is_picked, lemma_picked_contains, lemma_picked_more, lemma_picked_none};
use crate::text::{decimal, holds, number, split, text_lt, texts};

verus! {

/// The version of the layout of cache entries.
pub const CACHE_FORMAT_VERSION: u32 = 3;

/// Immutable cache state shared by every task in one execution: the manifest,
/// the ambient environment and the machine.
#[derive(Debug)]
pub struct CacheSession {
    pub project_manifest: Vec<u8>,
    pub environment: TextMap<String>,
    pub os: String,
    pub arch: String,
}

/// What a `CacheSession` says.
pub struct SessionView {
    pub project_manifest: Seq<u8>,
    pub environment: Dimensions,
    pub os: Seq<char>,
    pub arch: Seq<char>,
}

impl View for CacheSession {
    type V = SessionView;

    open spec fn view(&self) -> SessionView {
        SessionView {
            project_manifest: self.project_manifest@,
            environment: text_entries(self.environment@),
            os: self.os@,
            arch: self.arch@,
        }
    }
}

/// A file of the project, as it was read.
#[derive(Debug, Clone, PartialEq, Eq)]
pub struct ReadFile {
    pub path: String,
    pub contents: Vec<u8>,
    pub mode: Option<u32>,
}

/// What a `ReadFile` says.
pub struct ReadFileView {
    pub path: Seq<char>,
    pub contents: Seq<u8>,
    pub mode: Option<u32>,
}

impl View for ReadFile {
    type V = ReadFileView;

    open spec fn view(&self) -> ReadFileView {
        ReadFileView { path: self.path@, contents: self.contents@, mode: self.mode }
    }
}

/// What a list of files says.
pub open spec fn read_files(files: Seq<ReadFile>) -> Seq<ReadFileView> {
    files.map_values(|f: ReadFile| f@)
}

/// `base` with the first `count` entries of `more` stored in it.
pub open spec fn merged(base: Dimensions, more: Dimensions, count: nat) -> Dimensions
    decreases count,
{
    if count == 0 {
        base
    } else {
        inserted(merged(base, more, (count - 1) as nat), more[count - 1].0, more[count - 1].1)
    }
}

/// The value of a variable: the task's own, or the ambient one, or a mark that
/// it is not set.
pub open spec fn variable_value(
    task_env: Dimensions,
    ambient: Dimensions,
    variable: Seq<char>,
) -> Seq<char> {
    match lookup(task_env, variable) {
        Some(value) => value,
        None => match lookup(ambient, variable) {
            Some(value) => value,
            None => "<unset>"@,
        },
    }
}

/// The first `count` variables of `cache_env` with their values.
pub open spec fn named_variables(
    cache_env: Seq<Seq<char>>,
    task_env: Dimensions,
    ambient: Dimensions,
    count: nat,
) -> Dimensions
    decreases count,
{
    if count == 0 {
        Seq::empty()
    } else {
        inserted(
            named_variables(cache_env, task_env, ambient, (count - 1) as nat),
            cache_env[count - 1],
            variable_value(task_env, ambient, cache_env[count - 1]),
        )
    }
}

/// The variables that belong to the key of a task. A `*` stands for all of
/// them.
pub open spec fn key_environment(
    cache_env: Seq<Seq<char>>,
    task_env: Dimensions,
    ambient: Dimensions,
) -> Dimensions {
    if cache_env.contains("*"@) {
        merged(ambient, task_env, task_env.len())
    } else {
        named_variables(cache_env, task_env, ambient, cache_env.len())
    }
}

/// Variables with their values, framed.
pub open spec fn framed_variables(variables: Dimensions, count: nat) -> Seq<u8>
    decreases count,
{
    if count == 0 {
        Seq::empty()
    } else {
        framed_variables(variables, (count - 1) as nat) + framed(variables[count - 1].0) + framed(
            variables[count - 1].1,
        )
    }
}

/// Files, framed.
pub open spec fn framed_files(files: Seq<ReadFileView>) -> Seq<u8>
    decreases files.len(),
{
    if files.len() == 0 {
        Seq::empty()
    } else {
        framed(files[0].path) + framed_file(files[0].path, files[0].contents, files[0].mode)
            + framed_files(files.drop_first())
    }
}

/// The failure for a task that runs elsewhere.
pub open spec fn outside_project(task: Seq<char>) -> CacheFault {
    CacheFault::Invalid {
        message: "task '"@ + task + "' working directory is outside the project root"@,
    }
}

/// What the key of a task says about the task itself.
pub open spec fn task_transcript(
    session: SessionView,
    task: PlannedTaskView,
    dependency_keys: Seq<Seq<char>>,
) -> Seq<u8> {
    framed("mono-cache"@) + framed(decimal(CACHE_FORMAT_VERSION as nat)) + framed(session.os)
        + framed(session.arch) + framed(task.id) + framed(relative_to(task.cwd, task.root))
        + framed_list(task.command) + framed(decimal((task.timeout.nanos / 1_000_000_000) as nat))
        + framed(decimal(task.max_output_bytes as nat)) + framed(decimal(task.retries as nat))
        + framed(decimal((task.retry_backoff.nanos / 1_000_000_000) as nat)) + framed(
        match task.resource_group {
            Some(group) => group,
            None => ""@,
        },
    ) + framed_list(task.inputs) + framed_list(task.outputs) + framed_list(task.cache_env)
        + framed_list(dependency_keys) + framed_bytes(
        "project-manifest"@,
        session.project_manifest,
    )
}

/// Everything that the key of a task depends on.
pub open spec fn key_transcript(
    session: SessionView,
    task: PlannedTaskView,
    dependency_keys: Seq<Seq<char>>,
    files: Seq<ReadFileView>,
) -> Seq<u8> {
    let variables = key_environment(task.cache_env, task.env, session.environment);
    task_transcript(session, task, dependency_keys) + framed_variables(variables, variables.len())
        + framed_files(files)
}

fn key_variables(task: &PlannedTask, session: &CacheSession) -> (r: TextMap<String>)
    ensures
        text_entries(r@) == key_environment(task@.cache_env, task@.env, session@.environment),
{
    let ghost ambient = session@.environment;
    let ghost own = task@.env;
    if holds(&task.cache_env, "*") {
        let mut variables = session.environment.copy();
        let mut i: usize = 0;
        while i < task.env.len()
            invariant
                i <= task.env@.len(),
                own == text_entries(task.env@),
                ambient == session@.environment,
                text_entries(variables@) == merged(ambient, own, i as nat),
            decreases task.env@.len() - i,
        {
            let value = task.env.value_at(i).clone();
            proof {
                lemma_text_entries_inserted(variables@, task.env@[i as int].0, value);
                assert(own[i as int] == (task.env@[i as int].0, task.env@[i as int].1@));
            }
            variables.insert(task.env.key_at(i).to_owned(), value);
            i += 1;
        }
        return variables;
    }
    let mut variables: TextMap<String> = TextMap::new();
    assert(text_entries(variables@) =~= Seq::empty());
    let mut i: usize = 0;
    while i < task.cache_env.len()
        invariant
            i <= task.cache_env@.len(),
            own == text_entries(task.env@),
            ambient == session@.environment,
            text_entries(variables@) == named_variables(
                task@.cache_env,
                own,
                ambient,
                i as nat,
            ),
        decreases task.cache_env.len() - i,
    {
        let variable = task.cache_env[i].clone();
        proof {
            lemma_text_entries_lookup(task.env@, variable@);
            lemma_text_entries_lookup(session.environment@, variable@);
            assert(task@.cache_env[i as int] == variable@);
        }
        let value = match task.env.get(variable.as_str()) {
            Some(value) => value.clone(),
            None => match session.environment.get(variable.as_str()) {
                Some(value) => value.clone(),
                None => "<unset>".to_owned(),
            },
        };
        proof {
            lemma_text_entries_inserted(variables@, variable@, value);
        }
        variables.insert(variable, value);
        i += 1;
    }
    variables
}

/// The failure of a task that runs outside its project.
fn working_directory(task: &PlannedTask) -> (r: Result<String, CacheError>)
    ensures
        match r {
            Ok(directory) => is_below(task@.cwd, task@.root) && directory@ == relative_to(
                task@.cwd,
                task@.root,
            ),
            Err(e) => !is_below(task@.cwd, task@.root) && e@ == outside_project(task@.id),
        },
{
    match strip_base(task.cwd.as_str(), task.root.as_str()) {
        Some(directory) => Ok(directory),
        None => {
            let mut message = "task '".to_owned();
            message.append(task.id.as_str());
            message.append("' working directory is outside the project root");
            Err(CacheError::Invalid { message })
        },
    }
}

/// The paths that `patterns` do not select.
pub open spec fn without_selected(paths: Seq<Seq<char>>, patterns: Seq<PatternView>) -> Seq<
    Seq<char>,
>
    decreases paths.len(),
{
    if paths.len() == 0 {
        Seq::empty()
    } else {
        let rest = without_selected(paths.drop_last(), patterns);
        if selects(patterns, split(paths.last(), '/')) {
            rest
        } else {
            rest.push(paths.last())
        }
    }
}

/// The files that belong to the key of a task: its inputs, but for those that
/// are outputs too.
pub open spec fn key_inputs(task: PlannedTaskView, entries: Seq<WalkEntry>) -> Result<
    Seq<Seq<char>>,
    CacheFault,
> {
    if !is_below(task.cwd, task.root) {
        Err(outside_project(task.id))
    } else {
        match collected(all_compiled(task.inputs), entries, "input"@) {
            Ok(paths) => Ok(without_selected(paths, all_compiled(task.outputs))),
            Err(fault) => Err(fault),
        }
    }
}

/// The files that belong to the key of a task, among those that a walk found.
pub fn input_files(task: &PlannedTask, entries: &Vec<WalkEntry>) -> (r: Result<
    Vec<String>,
    CacheError,
>)
    ensures
        match r {
            Ok(paths) => key_inputs(task@, entries@) == Ok::<Seq<Seq<char>>, CacheFault>(
                texts(paths@),
            ),
            Err(e) => key_inputs(task@, entries@) == Err::<Seq<Seq<char>>, CacheFault>(e@),
        },
{
    match working_directory(task) {
        Err(e) => {
            return Err(e);
        },
        Ok(_) => {},
    }
    let paths = match collect_files(entries, &task.inputs, "input") {
        Err(e) => {
            return Err(e);
        },
        Ok(paths) => paths,
    };
    let outputs = CachePatterns::compile(&task.outputs);
    let ghost all = texts(paths@);
    let mut kept: Vec<String> = Vec::new();
    assert(texts(kept@) =~= Seq::<Seq<char>>::empty());
    let mut i: usize = 0;
    while i < paths.len()
        invariant
            i <= paths@.len(),
            all == texts(paths@),
            texts(kept@) == without_selected(all.take(i as int), outputs@),
        decreases paths.len() - i,
    {
        let ghost next = all.take(i as int + 1);
        let ghost before = texts(kept@);
        assert(next.drop_last() =~= all.take(i as int));
        assert(next.last() == paths[i as int]@);
        if !outputs.matches(paths[i].as_str()) {
            kept.push(paths[i].clone());
            assert(texts(kept@) =~= before.push(paths[i as int]@));
        }
        i += 1;
    }
    assert(all.take(i as int) =~= all);
    Ok(kept)
}

/// The key of a task: the digest of everything that its outcome may depend on.
/// `files` are the files of `input_files`, as they were read.
pub fn task_key_with_session(
    session: &CacheSession,
    task: &PlannedTask,
    dependency_keys: &Vec<String>,
    files: &Vec<ReadFile>,
) -> (r: Result<String, CacheError>)
    ensures
        match r {
            Ok(key) => is_below(task@.cwd, task@.root) && key@ == hex(
                sha256_of(
                    key_transcript(
                        session@,
                        task@,
                        texts(dependency_keys@),
                        read_files(files@),
                    ),
                ),
            ),
            Err(e) => !is_below(task@.cwd, task@.root) && e@ == outside_project(task@.id),
        },
{
    let directory = match working_directory(task) {
        Err(e) => {
            return Err(e);
        },
        Ok(directory) => directory,
    };
    let mut hasher = Transcript::new();
    hasher.hash_string("mono-cache");
    assert(hasher.bytes@ =~= framed("mono-cache"@));
    hasher.hash_string(number(CACHE_FORMAT_VERSION as u128).as_str());
    hasher.hash_string(session.os.as_str());
    hasher.hash_string(session.arch.as_str());
    hasher.hash_string(task.id.as_str());
    hasher.hash_string(directory.as_str());
    hasher.hash_strings(&task.command);
    hasher.hash_string(number(task.timeout.as_secs()).as_str());
    hasher.hash_string(number(task.max_output_bytes as u128).as_str());
    hasher.hash_string(number(task.retries as u128).as_str());
    hasher.hash_string(number(task.retry_backoff.as_secs()).as_str());
    let group = match &task.resource_group {
        Some(group) => group.clone(),
        None => "".to_owned(),
    };
    hasher.hash_string(group.as_str());
    hasher.hash_strings(&task.inputs);
    hasher.hash_strings(&task.outputs);
    hasher.hash_strings(&task.cache_env);
    hasher.hash_strings(dependency_keys);
    hasher.hash_bytes("project-manifest", &session.project_manifest);
    let ghost head = task_transcript(session@, task@, texts(dependency_keys@));
    assert(hasher.bytes@ == head);

    let variables = key_variables(task, session);
    let ghost named = text_entries(variables@);
    let mut i: usize = 0;
    assert(head + framed_variables(named, 0) =~= head);
    while i < variables.len()
        invariant
            i <= variables@.len(),
            named == text_entries(variables@),
            hasher.bytes@ == head + framed_variables(named, i as nat),
        decreases variables@.len() - i,
    {
        let ghost before = framed_variables(named, i as nat);
        assert(named[i as int] == (variables@[i as int].0, variables@[i as int].1@));
        hasher.hash_string(variables.key_at(i));
        hasher.hash_string(variables.value_at(i).as_str());
        assert(head + before + framed(named[i as int].0) + framed(named[i as int].1) =~= head + (
        before + framed(named[i as int].0) + framed(named[i as int].1)));
        i += 1;
    }
    let ghost with_variables = head + framed_variables(named, named.len());
    let ghost all = read_files(files@);
    let mut k: usize = 0;
    assert(all.skip(0) =~= all);
    while k < files.len()
        invariant
            k <= files@.len(),
            all == read_files(files@),
            hasher.bytes@ + framed_files(all.skip(k as int)) == with_variables + framed_files(all),
        decreases files.len() - k,
    {
        let ghost now = hasher.bytes@;
        let ghost left = all.skip(k as int);
        let file = &files[k];
        assert(left[0] == file@);
        assert(left.drop_first() =~= all.skip(k as int + 1));
        hasher.hash_string(file.path.as_str());
        hasher.hash_file(file.path.as_str(), &file.contents, file.mode);
        assert(now + framed_files(left) =~= hasher.bytes@ + framed_files(left.drop_first()));
        k += 1;
    }
    assert(hasher.bytes@ + framed_files(all.skip(k as int)) =~= hasher.bytes@);
    Ok(hasher.finish())
}

/// A task's own value of a variable hides the ambient one: keys do not depend
/// on what the environment says of a variable that the task sets.
pub proof fn law_task_environment_wins(
    cache_env: Seq<Seq<char>>,
    task_env: Dimensions,
    ambient: Dimensions,
    other: Dimensions,
    count: nat,
)
    requires
        count <= cache_env.len(),
        forall|i: int|
            0 <= i < count ==> lookup(task_env, #[trigger] cache_env[i]) is Some || lookup(
                ambient,
                cache_env[i],
            ) == lookup(other, cache_env[i]),
    ensures
        named_variables(cache_env, task_env, ambient, count) == named_variables(
            cache_env,
            task_env,
            other,
            count,
        ),
    decreases count,
{
    if count > 0 {
        law_task_environment_wins(cache_env, task_env, ambient, other, (count - 1) as nat);
        assert(lookup(task_env, cache_env[count - 1]) is Some || lookup(
            ambient,
            cache_env[count - 1],
        ) == lookup(other, cache_env[count - 1]));
    }
}

/// A changed input file changes what the key is taken of: the transcripts of
/// two lists of files are equal only where the lists are.
pub proof fn law_changed_file_changes_transcript(a: Seq<ReadFileView>, b: Seq<ReadFileView>)
    requires
        forall|i: int| 0 <= i < a.len() ==> is_hashable(#[trigger] a[i]),
        forall|i: int| 0 <= i < b.len() ==> is_hashable(#[trigger] b[i]),
        framed_files(a) == framed_files(b),
    ensures
        a == b,
    decreases a.len(),
{
    vstd::bytes::lemma_auto_spec_u64_to_from_le_bytes();
    if a.len() == 0 || b.len() == 0 {
        if a.len() > 0 {
            assert(framed_files(a).len() >= framed(a[0].path).len());
        }
        if b.len() > 0 {
            assert(framed_files(b).len() >= framed(b[0].path).len());
        }
        assert(a =~= b);
    } else {
        let x = a[0];
        let y = b[0];
        let rest_a = framed_files(a.drop_first());
        let rest_b = framed_files(b.drop_first());
        let file_a = framed_file(x.path, x.contents, x.mode);
        let file_b = framed_file(y.path, y.contents, y.mode);
        assert(framed_files(a) =~= framed(x.path) + (file_a + rest_a));
        assert(framed_files(b) =~= framed(y.path) + (file_b + rest_b));
        law_framing_is_unambiguous(x.path, y.path, file_a + rest_a, file_b + rest_b);
        law_files_are_told_apart(
            x.path,
            y.path,
            x.contents,
            y.contents,
            x.mode,
            y.mode,
            rest_a,
            rest_b,
        );
        law_changed_file_changes_transcript(a.drop_first(), b.drop_first());
        assert(a =~= seq![x] + a.drop_first());
        assert(b =~= seq![y] + b.drop_first());
    }
}

/// Whether a file has a mode, and its name and content are short enough for
/// their lengths to be written down.
pub open spec fn is_hashable(file: ReadFileView) -> bool {
    fits_frame(file.path) && file.contents.len() <= u64::MAX && file.mode is Some
}

proof fn lemma_encoded_length(text: Seq<char>)
    ensures
        encode_utf8(text).len() <= 4 * text.len(),
    decreases text.len(),
{
    if text.len() > 0 {
        lemma_encoded_length(text.drop_first());
    }
}

/// A number with at most so many digits.
spec fn digits_bound(k: nat) -> nat
    decreases k,
{
    if k == 0 {
        1
    } else {
        10 * digits_bound((k - 1) as nat)
    }
}

proof fn lemma_decimal_length(n: nat, k: nat)
    requires
        k > 0,
        n < digits_bound(k),
    ensures
        decimal(n).len() <= k,
    decreases n,
{
    if n >= 10 {
        assert(k > 1) by {
            if k == 1 {
                assert(digits_bound(0) == 1);
            }
        }
        lemma_decimal_length(n / 10, (k - 1) as nat);
    }
}

/// A number that a machine can hold is short enough for its length to be
/// written down.
proof fn lemma_number_fits(n: nat)
    requires
        n <= u128::MAX,
    ensures
        fits_frame(decimal(n)),
{
    assert(n < digits_bound(39)) by {
        reveal_with_fuel(digits_bound, 40);
    }
    lemma_decimal_length(n, 39);
    lemma_encoded_length(decimal(n));
}

/// Whether every text of a list is short enough for its length to be written
/// down, and so is the list.
pub open spec fn fit_frames(values: Seq<Seq<char>>) -> bool {
    values.len() <= u64::MAX && forall|i: int|
        0 <= i < values.len() ==> fits_frame(#[trigger] values[i])
}

/// The name of the resource group; empty where there is none.
pub open spec fn group_text(task: PlannedTaskView) -> Seq<char> {
    match task.resource_group {
        Some(group) => group,
        None => ""@,
    }
}

/// Whether all that the key of a task says about the task itself is short
/// enough for its length to be written down.
pub open spec fn is_framable(
    session: SessionView,
    task: PlannedTaskView,
    dependency_keys: Seq<Seq<char>>,
) -> bool {
    &&& fits_frame(session.os)
    &&& fits_frame(session.arch)
    &&& fits_frame(task.id)
    &&& fits_frame(relative_to(task.cwd, task.root))
    &&& fit_frames(task.command)
    &&& fits_frame(group_text(task))
    &&& fit_frames(task.inputs)
    &&& fit_frames(task.outputs)
    &&& fit_frames(task.cache_env)
    &&& fit_frames(dependency_keys)
    &&& session.project_manifest.len() <= u64::MAX
}

/// The end of a transcript, from the limits on.
spec fn limits_on(
    session: SessionView,
    task: PlannedTaskView,
    dependency_keys: Seq<Seq<char>>,
    after: Seq<u8>,
) -> Seq<u8> {
    framed(decimal((task.timeout.nanos / 1_000_000_000) as nat)) + (framed(
        decimal(task.max_output_bytes as nat),
    ) + (framed(decimal(task.retries as nat)) + (framed(
        decimal((task.retry_backoff.nanos / 1_000_000_000) as nat),
    ) + (framed(group_text(task)) + lists_on(session, task, dependency_keys, after)))))
}

/// The end of a transcript, from the lists of patterns on.
spec fn lists_on(
    session: SessionView,
    task: PlannedTaskView,
    dependency_keys: Seq<Seq<char>>,
    after: Seq<u8>,
) -> Seq<u8> {
    framed_list(task.inputs) + (framed_list(task.outputs) + (framed_list(task.cache_env) + (
    framed_list(dependency_keys) + (framed_bytes("project-manifest"@, session.project_manifest)
        + after))))
}

/// A transcript from its first part on.
spec fn parts_on(
    session: SessionView,
    task: PlannedTaskView,
    dependency_keys: Seq<Seq<char>>,
    after: Seq<u8>,
) -> Seq<u8> {
    framed("mono-cache"@) + (framed(decimal(CACHE_FORMAT_VERSION as nat)) + (framed(session.os) + (
    framed(session.arch) + (framed(task.id) + (framed(relative_to(task.cwd, task.root)) + (
    framed_list(task.command) + limits_on(session, task, dependency_keys, after)))))))
}

proof fn lemma_regroup(before: Seq<u8>, part: Seq<u8>, after: Seq<u8>)
    ensures
        before + part + after == before + (part + after),
{
    assert(before + part + after =~= before + (part + after));
}

proof fn lemma_parts(
    session: SessionView,
    task: PlannedTaskView,
    dependency_keys: Seq<Seq<char>>,
    after: Seq<u8>,
)
    ensures
        task_transcript(session, task, dependency_keys) + after == parts_on(
            session,
            task,
            dependency_keys,
            after,
        ),
{
    let p1 = framed("mono-cache"@);
    let x2 = framed(decimal(CACHE_FORMAT_VERSION as nat));
    let x3 = framed(session.os);
    let x4 = framed(session.arch);
    let x5 = framed(task.id);
    let x6 = framed(relative_to(task.cwd, task.root));
    let x7 = framed_list(task.command);
    let x8 = framed(decimal((task.timeout.nanos / 1_000_000_000) as nat));
    let x9 = framed(decimal(task.max_output_bytes as nat));
    let x10 = framed(decimal(task.retries as nat));
    let x11 = framed(decimal((task.retry_backoff.nanos / 1_000_000_000) as nat));
    let x12 = framed(group_text(task));
    let x13 = framed_list(task.inputs);
    let x14 = framed_list(task.outputs);
    let x15 = framed_list(task.cache_env);
    let x16 = framed_list(dependency_keys);
    let x17 = framed_bytes("project-manifest"@, session.project_manifest);
    let p2 = p1 + x2;
    let p3 = p2 + x3;
    let p4 = p3 + x4;
    let p5 = p4 + x5;
    let p6 = p5 + x6;
    let p7 = p6 + x7;
    let p8 = p7 + x8;
    let p9 = p8 + x9;
    let p10 = p9 + x10;
    let p11 = p10 + x11;
    let p12 = p11 + x12;
    let p13 = p12 + x13;
    let p14 = p13 + x14;
    let p15 = p14 + x15;
    let p16 = p15 + x16;
    assert(task_transcript(session, task, dependency_keys) == p16 + x17);
    let t17 = x17 + after;
    let t16 = x16 + t17;
    let t15 = x15 + t16;
    let t14 = x14 + t15;
    let t13 = x13 + t14;
    let t12 = x12 + t13;
    let t11 = x11 + t12;
    let t10 = x10 + t11;
    let t9 = x9 + t10;
    let t8 = x8 + t9;
    let t7 = x7 + t8;
    let t6 = x6 + t7;
    let t5 = x5 + t6;
    let t4 = x4 + t5;
    let t3 = x3 + t4;
    lemma_regroup(p16, x17, after);
    lemma_regroup(p15, x16, t17);
    lemma_regroup(p14, x15, t16);
    lemma_regroup(p13, x14, t15);
    lemma_regroup(p12, x13, t14);
    lemma_regroup(p11, x12, t13);
    lemma_regroup(p10, x11, t12);
    lemma_regroup(p9, x10, t11);
    lemma_regroup(p8, x9, t10);
    lemma_regroup(p7, x8, t9);
    lemma_regroup(p6, x7, t8);
    lemma_regroup(p5, x6, t7);
    lemma_regroup(p4, x5, t6);
    lemma_regroup(p3, x4, t5);
    lemma_regroup(p2, x3, t4);
    lemma_regroup(p1, x2, t3);
}

proof fn lemma_numbers_told_apart(a: nat, b: nat, after_a: Seq<u8>, after_b: Seq<u8>)
    requires
        a <= u128::MAX,
        b <= u128::MAX,
        framed(decimal(a)) + after_a == framed(decimal(b)) + after_b,
    ensures
        a == b,
        after_a == after_b,
{
    lemma_number_fits(a);
    lemma_number_fits(b);
    law_framing_is_unambiguous(decimal(a), decimal(b), after_a, after_b);
    crate::text::law_decimal_round_trip(a);
    crate::text::law_decimal_round_trip(b);
}

proof fn lemma_lists_told_apart(
    a: Seq<Seq<char>>,
    b: Seq<Seq<char>>,
    after_a: Seq<u8>,
    after_b: Seq<u8>,
)
    requires
        fit_frames(a),
        fit_frames(b),
        framed_list(a) + after_a == framed_list(b) + after_b,
    ensures
        a == b,
        after_a == after_b,
{
    lemma_number_fits(a.len());
    lemma_number_fits(b.len());
    law_framing_keeps_boundaries(a, b, after_a, after_b);
}

/// What of two tasks the transcripts agree on.
pub open spec fn same_settings(a: PlannedTaskView, b: PlannedTaskView) -> bool {
    &&& a.id == b.id
    &&& relative_to(a.cwd, a.root) == relative_to(b.cwd, b.root)
    &&& a.command == b.command
    &&& a.timeout.nanos / 1_000_000_000 == b.timeout.nanos / 1_000_000_000
    &&& a.max_output_bytes == b.max_output_bytes
    &&& a.retries == b.retries
    &&& a.retry_backoff.nanos / 1_000_000_000 == b.retry_backoff.nanos / 1_000_000_000
    &&& group_text(a) == group_text(b)
    &&& a.inputs == b.inputs
    &&& a.outputs == b.outputs
    &&& a.cache_env == b.cache_env
}

proof fn lemma_lists_agree(
    one: SessionView,
    two: SessionView,
    a: PlannedTaskView,
    b: PlannedTaskView,
    keys_a: Seq<Seq<char>>,
    keys_b: Seq<Seq<char>>,
    after_a: Seq<u8>,
    after_b: Seq<u8>,
)
    requires
        is_framable(one, a, keys_a),
        is_framable(two, b, keys_b),
        lists_on(one, a, keys_a, after_a) == lists_on(two, b, keys_b, after_b),
    ensures
        a.inputs == b.inputs,
        a.outputs == b.outputs,
        a.cache_env == b.cache_env,
        keys_a == keys_b,
        one.project_manifest == two.project_manifest,
        after_a == after_b,
{
    let label = "project-manifest"@;
    let a17 = framed_bytes(label, one.project_manifest) + after_a;
    let b17 = framed_bytes(label, two.project_manifest) + after_b;
    let a16 = framed_list(keys_a) + a17;
    let b16 = framed_list(keys_b) + b17;
    let a15 = framed_list(a.cache_env) + a16;
    let b15 = framed_list(b.cache_env) + b16;
    let a14 = framed_list(a.outputs) + a15;
    let b14 = framed_list(b.outputs) + b15;
    lemma_lists_told_apart(a.inputs, b.inputs, a14, b14);
    lemma_lists_told_apart(a.outputs, b.outputs, a15, b15);
    lemma_lists_told_apart(a.cache_env, b.cache_env, a16, b16);
    lemma_lists_told_apart(keys_a, keys_b, a17, b17);
    reveal_strlit("project-manifest");
    lemma_encoded_length(label);
    assert(framed_bytes(label, one.project_manifest) =~= framed_file(
        label,
        one.project_manifest,
        None,
    ));
    assert(framed_bytes(label, two.project_manifest) =~= framed_file(
        label,
        two.project_manifest,
        None,
    ));
    law_files_are_told_apart(
        label,
        label,
        one.project_manifest,
        two.project_manifest,
        None,
        None,
        after_a,
        after_b,
    );
}

/// A changed setting changes what the key is taken of: transcripts are equal
/// only where the tasks agree on their command, directory, limits, retries,
/// group and patterns, and the dependency keys, the machine and the manifest
/// are the same. Whatever stands behind them is the same, too.
pub proof fn law_changed_settings_change_transcript(
    one: SessionView,
    two: SessionView,
    a: PlannedTaskView,
    b: PlannedTaskView,
    keys_a: Seq<Seq<char>>,
    keys_b: Seq<Seq<char>>,
    after_a: Seq<u8>,
    after_b: Seq<u8>,
)
    requires
        is_framable(one, a, keys_a),
        is_framable(two, b, keys_b),
        task_transcript(one, a, keys_a) + after_a == task_transcript(two, b, keys_b) + after_b,
    ensures
        same_settings(a, b),
        keys_a == keys_b,
        one.os == two.os,
        one.arch == two.arch,
        one.project_manifest == two.project_manifest,
        after_a == after_b,
{
    lemma_parts(one, a, keys_a, after_a);
    lemma_parts(two, b, keys_b, after_b);
    let a13 = lists_on(one, a, keys_a, after_a);
    let b13 = lists_on(two, b, keys_b, after_b);
    let a12 = framed(group_text(a)) + a13;
    let b12 = framed(group_text(b)) + b13;
    let a11 = framed(decimal((a.retry_backoff.nanos / 1_000_000_000) as nat)) + a12;
    let b11 = framed(decimal((b.retry_backoff.nanos / 1_000_000_000) as nat)) + b12;
    let a10 = framed(decimal(a.retries as nat)) + a11;
    let b10 = framed(decimal(b.retries as nat)) + b11;
    let a9 = framed(decimal(a.max_output_bytes as nat)) + a10;
    let b9 = framed(decimal(b.max_output_bytes as nat)) + b10;
    let a8 = limits_on(one, a, keys_a, after_a);
    let b8 = limits_on(two, b, keys_b, after_b);
    let a7 = framed_list(a.command) + a8;
    let b7 = framed_list(b.command) + b8;
    let a6 = framed(relative_to(a.cwd, a.root)) + a7;
    let b6 = framed(relative_to(b.cwd, b.root)) + b7;
    let a5 = framed(a.id) + a6;
    let b5 = framed(b.id) + b6;
    let a4 = framed(one.arch) + a5;
    let b4 = framed(two.arch) + b5;
    let a3 = framed(one.os) + a4;
    let b3 = framed(two.os) + b4;
    let version = decimal(CACHE_FORMAT_VERSION as nat);
    let a2 = framed(version) + a3;
    let b2 = framed(version) + b3;
    reveal_strlit("mono-cache");
    lemma_encoded_length("mono-cache"@);
    law_framing_is_unambiguous("mono-cache"@, "mono-cache"@, a2, b2);
    lemma_number_fits(CACHE_FORMAT_VERSION as nat);
    law_framing_is_unambiguous(version, version, a3, b3);
    law_framing_is_unambiguous(one.os, two.os, a4, b4);
    law_framing_is_unambiguous(one.arch, two.arch, a5, b5);
    law_framing_is_unambiguous(a.id, b.id, a6, b6);
    law_framing_is_unambiguous(
        relative_to(a.cwd, a.root),
        relative_to(b.cwd, b.root),
        a7,
        b7,
    );
    lemma_lists_told_apart(a.command, b.command, a8, b8);
    lemma_numbers_told_apart(
        (a.timeout.nanos / 1_000_000_000) as nat,
        (b.timeout.nanos / 1_000_000_000) as nat,
        a9,
        b9,
    );
    lemma_numbers_told_apart(a.max_output_bytes as nat, b.max_output_bytes as nat, a10, b10);
    lemma_numbers_told_apart(a.retries as nat, b.retries as nat, a11, b11);
    lemma_numbers_told_apart(
        (a.retry_backoff.nanos / 1_000_000_000) as nat,
        (b.retry_backoff.nanos / 1_000_000_000) as nat,
        a12,
        b12,
    );
    law_framing_is_unambiguous(group_text(a), group_text(b), a13, b13);
    lemma_lists_agree(one, two, a, b, keys_a, keys_b, after_a, after_b);
}

/// The files of a task's key are those that its input patterns collect, in
/// that order, but for those that its output patterns select. A file is among
/// them exactly when it is collected and not selected as an output.
pub proof fn law_key_files_are_the_inputs_that_are_no_outputs(
    task: PlannedTaskView,
    entries: Seq<WalkEntry>,
)
    ensures
        match key_inputs(task, entries) {
            Ok(files) => is_below(task.cwd, task.root) && (collected(
                all_compiled(task.inputs),
                entries,
                "input"@,
            ) matches Ok(paths) && is_picked(
                files,
                paths,
                |path: Seq<char>| !selects(all_compiled(task.outputs), split(path, '/')),
            ) && forall|path: Seq<char>| #[trigger]
                files.contains(path) <==> paths.contains(path) && !selects(
                    all_compiled(task.outputs),
                    split(path, '/'),
                )),
            Err(fault) => if is_below(task.cwd, task.root) {
                collected(all_compiled(task.inputs), entries, "input"@) == Err::<
                    Seq<Seq<char>>,
                    CacheFault,
                >(fault)
            } else {
                fault == outside_project(task.id)
            },
        },
{
    if is_below(task.cwd, task.root) {
        if let Ok(paths) = collected(all_compiled(task.inputs), entries, "input"@) {
            let outputs = all_compiled(task.outputs);
            lemma_without_selected(paths, outputs);
            let keep = |path: Seq<char>| !selects(outputs, split(path, '/'));
            let files = without_selected(paths, outputs);
            assert forall|path: Seq<char>| #[trigger] files.contains(path) <==> paths.contains(path)
                && !selects(outputs, split(path, '/')) by {
                lemma_picked_contains(files, paths, keep, path);
            }
        }
    }
}

/// A plain file on a walked path belongs to the key exactly when the inputs
/// select it and the outputs do not.
pub proof fn law_a_file_belongs_to_the_key_by_its_path(
    task: PlannedTaskView,
    entries: Seq<WalkEntry>,
    path: Seq<char>,
)
    ensures
        key_inputs(task, entries) matches Ok(files) ==> (files.contains(path) <==> walks_over(
            entries,
            path,
            EntryKind::File,
        ) && selects(all_compiled(task.inputs), split(path, '/')) && !selects(
            all_compiled(task.outputs),
            split(path, '/'),
        )),
{
    law_key_files_are_the_inputs_that_are_no_outputs(task, entries);
    law_collecting_gives_the_selected_files(all_compiled(task.inputs), entries, "input"@);
    if let Ok(paths) = collected(all_compiled(task.inputs), entries, "input"@) {
        assert(paths.contains(path) <==> selects(all_compiled(task.inputs), split(path, '/'))
            && walks_over(entries, path, EntryKind::File));
    }
}

proof fn lemma_without_selected(paths: Seq<Seq<char>>, patterns: Seq<PatternView>)
    ensures
        is_picked(
            without_selected(paths, patterns),
            paths,
            |path: Seq<char>| !selects(patterns, split(path, '/')),
        ),
    decreases paths.len(),
{
    let keep = |path: Seq<char>| !selects(patterns, split(path, '/'));
    if paths.len() == 0 {
        lemma_picked_none(keep);
        assert(paths =~= Seq::empty());
    } else {
        lemma_without_selected(paths.drop_last(), patterns);
        lemma_picked_more(without_selected(paths.drop_last(), patterns), paths, keep);
    }
}

/// The variables of a task's key are those that it names, each with the task's
/// own value, or else the ambient one, or else a mark that it is not set.
pub proof fn law_named_variables_belong_to_the_key(
    cache_env: Seq<Seq<char>>,
    task_env: Dimensions,
    ambient: Dimensions,
    variable: Seq<char>,
)
    requires
        sorted(task_env),
        sorted(ambient),
        !cache_env.contains("*"@),
    ensures
        ({
            let variables = key_environment(cache_env, task_env, ambient);
            &&& sorted(variables)
            &&& keys(variables).contains(variable) <==> cache_env.contains(variable)
            &&& cache_env.contains(variable) ==> (forall|value: Seq<char>| #[trigger]
                task_env.contains((variable, value)) ==> variables.contains((variable, value)))
            &&& cache_env.contains(variable) && !keys(task_env).contains(variable) ==> (forall|
                value: Seq<char>,
            | #[trigger]
                ambient.contains((variable, value)) ==> variables.contains((variable, value)))
            &&& cache_env.contains(variable) && !keys(task_env).contains(variable) && !keys(
                ambient,
            ).contains(variable) ==> variables.contains((variable, "<unset>"@))
        }),
{
    let variables = key_environment(cache_env, task_env, ambient);
    lemma_named_variables(cache_env, task_env, ambient, cache_env.len(), variable);
    let value = variable_value(task_env, ambient, variable);
    law_a_key_gives_the_value_held_with_it(variables, variable, value);
    law_a_key_gives_the_value_held_with_it(task_env, variable, value);
    law_a_key_gives_the_value_held_with_it(ambient, variable, value);
    assert forall|held: Seq<char>| #[trigger]
        task_env.contains((variable, held)) && cache_env.contains(variable) implies variables.contains(
        (variable, held),
    ) by {
        law_a_key_gives_the_value_held_with_it(task_env, variable, held);
    }
    assert forall|held: Seq<char>| #[trigger]
        ambient.contains((variable, held)) && cache_env.contains(variable) && !keys(
        task_env,
    ).contains(variable) implies variables.contains((variable, held)) by {
        law_a_key_gives_the_value_held_with_it(ambient, variable, held);
    }
}

/// With a `*` every variable belongs to the key: the task's own, and the
/// ambient ones that the task does not set.
pub proof fn law_a_star_takes_every_variable(
    cache_env: Seq<Seq<char>>,
    task_env: Dimensions,
    ambient: Dimensions,
    variable: Seq<char>,
    value: Seq<char>,
)
    requires
        sorted(task_env),
        sorted(ambient),
        cache_env.contains("*"@),
    ensures
        sorted(key_environment(cache_env, task_env, ambient)),
        key_environment(cache_env, task_env, ambient).contains((variable, value))
            <==> task_env.contains((variable, value)) || (!keys(task_env).contains(variable)
            && ambient.contains((variable, value))),
{
    let variables = key_environment(cache_env, task_env, ambient);
    lemma_merged_lookup(ambient, task_env, task_env.len(), variable);
    assert(task_env.take(task_env.len() as int) =~= task_env);
    law_a_key_gives_the_value_held_with_it(variables, variable, value);
    law_a_key_gives_the_value_held_with_it(task_env, variable, value);
    law_a_key_gives_the_value_held_with_it(ambient, variable, value);
}

proof fn lemma_named_variables(
    cache_env: Seq<Seq<char>>,
    task_env: Dimensions,
    ambient: Dimensions,
    count: nat,
    variable: Seq<char>,
)
    requires
        count <= cache_env.len(),
    ensures
        sorted(named_variables(cache_env, task_env, ambient, count)),
        lookup(named_variables(cache_env, task_env, ambient, count), variable) == (
        if exists|i: int| 0 <= i < count && #[trigger] cache_env[i] == variable {
            Some(variable_value(task_env, ambient, variable))
        } else {
            None
        }),
    decreases count,
{
    if count > 0 {
        lemma_named_variables(cache_env, task_env, ambient, (count - 1) as nat, variable);
        let earlier = named_variables(cache_env, task_env, ambient, (count - 1) as nat);
        let name = cache_env[count - 1];
        law_insert_lookup(earlier, name, variable_value(task_env, ambient, name));
        let now = named_variables(cache_env, task_env, ambient, count);
        assert(lookup(now, variable) == if variable == name {
            Some(variable_value(task_env, ambient, name))
        } else {
            lookup(earlier, variable)
        });
        if exists|i: int| 0 <= i < count && #[trigger] cache_env[i] == variable {
            let i = choose|i: int| 0 <= i < count && #[trigger] cache_env[i] == variable;
            if variable != name {
                assert(i < count - 1);
            }
        }
    }
}

proof fn lemma_merged_lookup(base: Dimensions, more: Dimensions, count: nat, key: Seq<char>)
    requires
        sorted(base),
        sorted(more),
        count <= more.len(),
    ensures
        sorted(merged(base, more, count)),
        lookup(merged(base, more, count), key) == (match lookup(more.take(count as int), key) {
            Some(value) => Some(value),
            None => lookup(base, key),
        }),
    decreases count,
{
    let front = more.take(count as int);
    assert(sorted(front));
    if count == 0 {
        assert(lookup(front, key) is None);
    } else {
        lemma_merged_lookup(base, more, (count - 1) as nat, key);
        let last = more[count - 1];
        law_insert_lookup(merged(base, more, (count - 1) as nat), last.0, last.1);
        assert(lookup(merged(base, more, count), key) == if key == last.0 {
            Some(last.1)
        } else {
            lookup(merged(base, more, (count - 1) as nat), key)
        });
        let earlier = more.take(count - 1);
        assert(sorted(earlier));
        assert(front[count - 1] == last);
        if key == last.0 {
            lemma_lookup_index(front, count - 1);
        } else {
            lemma_lookup_some(front, key);
            lemma_lookup_some(earlier, key);
            if lookup(front, key) is Some {
                let i = choose|i: int|
                    0 <= i < front.len() && #[trigger] front[i] == (key, lookup(front, key)->0);
                assert(earlier[i] == front[i]);
                lemma_lookup_index(earlier, i);
            } else if lookup(earlier, key) is Some {
                let i = choose|i: int|
                    0 <= i < earlier.len() && #[trigger] earlier[i] == (
                        key,
                        lookup(earlier, key)->0,
                    );
                assert(front[i] == earlier[i]);
                lemma_lookup_index(front, i);
            }
        }
    }
}

/// Whether the name and the value of every variable are short enough for their
/// lengths to be written down.
pub open spec fn variables_fit(variables: Dimensions) -> bool {
    forall|i: int|
        0 <= i < variables.len() ==> fits_frame((#[trigger] variables[i]).0) && fits_frame(
            variables[i].1,
        )
}

/// Another value of a variable changes what the key is made from.
pub proof fn law_changed_variables_change_transcript(
    a: Dimensions,
    b: Dimensions,
    count: nat,
    after_a: Seq<u8>,
    after_b: Seq<u8>,
)
    requires
        variables_fit(a),
        variables_fit(b),
        count <= a.len(),
        count <= b.len(),
        framed_variables(a, count) + after_a == framed_variables(b, count) + after_b,
    ensures
        a.take(count as int) == b.take(count as int),
        after_a == after_b,
    decreases count,
{
    if count == 0 {
        assert(framed_variables(a, 0) + after_a =~= after_a);
        assert(framed_variables(b, 0) + after_b =~= after_b);
        assert(a.take(0) =~= b.take(0));
    } else {
        let x = a[count - 1];
        let y = b[count - 1];
        let rest_a = framed(x.0) + (framed(x.1) + after_a);
        let rest_b = framed(y.0) + (framed(y.1) + after_b);
        assert(framed_variables(a, count) + after_a =~= framed_variables(a, (count - 1) as nat)
            + rest_a);
        assert(framed_variables(b, count) + after_b =~= framed_variables(b, (count - 1) as nat)
            + rest_b);
        law_changed_variables_change_transcript(a, b, (count - 1) as nat, rest_a, rest_b);
        law_framing_is_unambiguous(x.0, y.0, framed(x.1) + after_a, framed(y.1) + after_b);
        law_framing_is_unambiguous(x.1, y.1, after_a, after_b);
        assert(a.take(count as int) =~= a.take(count - 1).push(x));
        assert(b.take(count as int) =~= b.take(count - 1).push(y));
    }
}

/// Two tasks whose keys are made from the same bytes agree in their settings,
/// in the keys of what they depend on, in the machine and the manifest, in the
/// value of each variable that they name, and in the name, the mode and the
/// content of each file.
#[verifier::rlimit(80)]
#[verifier::spinoff_prover]
pub proof fn law_keys_tell_work_apart(
    one: SessionView,
    two: SessionView,
    a: PlannedTaskView,
    b: PlannedTaskView,
    keys_a: Seq<Seq<char>>,
    keys_b: Seq<Seq<char>>,
    files_a: Seq<ReadFileView>,
    files_b: Seq<ReadFileView>,
)
    requires
        is_framable(one, a, keys_a),
        is_framable(two, b, keys_b),
        sorted(a.env) && sorted(b.env) && sorted(one.environment) && sorted(two.environment),
        !a.cache_env.contains("*"@),
        variables_fit(key_environment(a.cache_env, a.env, one.environment)),
        variables_fit(key_environment(b.cache_env, b.env, two.environment)),
        forall|i: int| 0 <= i < files_a.len() ==> is_hashable(#[trigger] files_a[i]),
        forall|i: int| 0 <= i < files_b.len() ==> is_hashable(#[trigger] files_b[i]),
        key_transcript(one, a, keys_a, files_a) == key_transcript(two, b, keys_b, files_b),
    ensures
        same_settings(a, b),
        keys_a == keys_b,
        one.os == two.os,
        one.arch == two.arch,
        one.project_manifest == two.project_manifest,
        key_environment(a.cache_env, a.env, one.environment) == key_environment(
            b.cache_env,
            b.env,
            two.environment,
        ),
        files_a == files_b,
{
    let x = key_environment(a.cache_env, a.env, one.environment);
    let y = key_environment(b.cache_env, b.env, two.environment);
    let after_a = framed_variables(x, x.len()) + framed_files(files_a);
    let after_b = framed_variables(y, y.len()) + framed_files(files_b);
    lemma_transcript_parts(one, a, keys_a, files_a);
    lemma_transcript_parts(two, b, keys_b, files_b);
    law_changed_settings_change_transcript(one, two, a, b, keys_a, keys_b, after_a, after_b);
    lemma_same_names(a.cache_env, a.env, one.environment, b.env, two.environment, a.cache_env.len());
    assert(keys(x).len() == x.len() && keys(y).len() == y.len());
    law_changed_variables_change_transcript(
        x,
        y,
        x.len(),
        framed_files(files_a),
        framed_files(files_b),
    );
    assert(x.take(x.len() as int) =~= x);
    assert(y.take(y.len() as int) =~= y);
    law_changed_file_changes_transcript(files_a, files_b);
}

proof fn lemma_transcript_parts(
    session: SessionView,
    task: PlannedTaskView,
    dependency_keys: Seq<Seq<char>>,
    files: Seq<ReadFileView>,
)
    ensures
        ({
            let variables = key_environment(task.cache_env, task.env, session.environment);
            key_transcript(session, task, dependency_keys, files) == task_transcript(
                session,
                task,
                dependency_keys,
            ) + (framed_variables(variables, variables.len()) + framed_files(files))
        }),
{
    let variables = key_environment(task.cache_env, task.env, session.environment);
    assert(key_transcript(session, task, dependency_keys, files) =~= task_transcript(
        session,
        task,
        dependency_keys,
    ) + (framed_variables(variables, variables.len()) + framed_files(files)));
}

/// The names of the variables do not depend on their values.
proof fn lemma_same_names(
    cache_env: Seq<Seq<char>>,
    env_a: Dimensions,
    ambient_a: Dimensions,
    env_b: Dimensions,
    ambient_b: Dimensions,
    count: nat,
)
    requires
        count <= cache_env.len(),
    ensures
        keys(named_variables(cache_env, env_a, ambient_a, count)) == keys(
            named_variables(cache_env, env_b, ambient_b, count),
        ),
    decreases count,
{
    if count > 0 {
        lemma_same_names(cache_env, env_a, ambient_a, env_b, ambient_b, (count - 1) as nat);
        let name = cache_env[count - 1];
        lemma_inserted_names(
            named_variables(cache_env, env_a, ambient_a, (count - 1) as nat),
            named_variables(cache_env, env_b, ambient_b, (count - 1) as nat),
            name,
            variable_value(env_a, ambient_a, name),
            variable_value(env_b, ambient_b, name),
        );
    } else {
        assert(named_variables(cache_env, env_a, ambient_a, 0) =~= named_variables(
            cache_env,
            env_b,
            ambient_b,
            0,
        ));
    }
}

proof fn lemma_inserted_names(
    a: Dimensions,
    b: Dimensions,
    name: Seq<char>,
    value_a: Seq<char>,
    value_b: Seq<char>,
)
    requires
        keys(a) == keys(b),
    ensures
        keys(inserted(a, name, value_a)) == keys(inserted(b, name, value_b)),
    decreases a.len(),
{
    assert(keys(a).len() == a.len() && keys(b).len() == b.len());
    if a.len() > 0 {
        assert(keys(a)[0] == a[0].0 && keys(b)[0] == b[0].0);
        assert(keys(a.drop_first()) =~= keys(a).drop_first());
        assert(keys(b.drop_first()) =~= keys(b).drop_first());
        if a[0].0 != name && !text_lt(name, a[0].0) {
            lemma_inserted_names(a.drop_first(), b.drop_first(), name, value_a, value_b);
            let x = inserted(a.drop_first(), name, value_a);
            let y = inserted(b.drop_first(), name, value_b);
            assert(keys(seq![a[0]] + x) =~= seq![a[0].0] + keys(x));
            assert(keys(seq![b[0]] + y) =~= seq![b[0].0] + keys(y));
        } else {
            assert forall|i: int| 0 <= i < a.len() implies (#[trigger] a[i]).0 == b[i].0 by {
                assert(keys(a)[i] == keys(b)[i]);
            }
            assert(keys(inserted(a, name, value_a)) =~= keys(inserted(b, name, value_b)));
        }
    } else {
        assert(keys(inserted(a, name, value_a)) =~= keys(inserted(b, name, value_b)));
    }
}

} // verus!
