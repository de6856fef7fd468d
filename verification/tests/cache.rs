use mono::cache::entry::{
    needs_gitignore, output_files, publication, store_metadata, store_outcome, CacheStore,
    EntryObservation, OutputObservation, Publication, CACHE_GITIGNORE,
};
use mono::cache::error::CacheError;
use mono::cache::hash::{
    component_paths, ensure_inside, ensure_no_symlink_components, file_digest, hex_digest,
    validate_cached_path, Transcript,
};
use mono::cache::key::{input_files, task_key_with_session, CacheSession, ReadFile};
use mono::cache::pattern::{
    collect_files, hidden, segment_matches, CachePatterns, EntryKind, WalkEntry, WalkStep,
};
use mono::config::StdinMode;
use mono::io::{IoError, IoErrorKind};
use mono::map::TextMap;
use mono::project::planned::PlannedTask;
use mono::time::Duration;

const ROOT: &str = "/work";

fn strings(values: &[&str]) -> Vec<String> {
    values.iter().map(|value| (*value).to_owned()).collect()
}

fn task(inputs: &[&str], outputs: &[&str]) -> PlannedTask {
    PlannedTask {
        id: "build".to_owned(),
        project: "fixture".to_owned(),
        root: ROOT.to_owned(),
        command: strings(&["sh", "-c", "cat input.txt > output.txt"]),
        stdin: StdinMode::Null,
        cwd: ROOT.to_owned(),
        env: TextMap::new(),
        cache: true,
        inputs: strings(inputs),
        outputs: strings(outputs),
        cache_env: Vec::new(),
        timeout: Duration::from_secs(600),
        max_output_bytes: 16 * 1024 * 1024,
        resource_group: None,
        retries: 0,
        retry_backoff: Duration::zero(),
        finalizer: false,
        depends_on: Vec::new(),
    }
}

fn simple_task() -> PlannedTask {
    task(&["input.txt"], &["output.txt"])
}

fn session(environment: &[(&str, &str)]) -> CacheSession {
    let mut variables = TextMap::new();
    for (name, value) in environment {
        variables.insert((*name).to_owned(), (*value).to_owned());
    }
    CacheSession {
        project_manifest: b"[project]".to_vec(),
        environment: variables,
        os: "linux".to_owned(),
        arch: "x86_64".to_owned(),
    }
}

fn file(path: &str) -> WalkEntry {
    WalkEntry {
        path: path.to_owned(),
        kind: EntryKind::File,
    }
}

fn symlink(path: &str) -> WalkEntry {
    WalkEntry {
        path: path.to_owned(),
        kind: EntryKind::Symlink,
    }
}

fn read_file(path: &str, contents: &str) -> ReadFile {
    ReadFile {
        path: path.to_owned(),
        contents: contents.as_bytes().to_vec(),
        mode: Some(0o644),
    }
}

/// The key of a task in a tree of files.
fn key_in(task: &PlannedTask, tree: &[(&str, &str)]) -> Result<String, CacheError> {
    key_with(task, tree, &[])
}

fn key_with(
    task: &PlannedTask,
    tree: &[(&str, &str)],
    environment: &[(&str, &str)],
) -> Result<String, CacheError> {
    let entries: Vec<WalkEntry> = tree.iter().map(|(path, _)| file(path)).collect();
    let selected = input_files(task, &entries)?;
    let files: Vec<ReadFile> = selected
        .iter()
        .map(|path| {
            let (_, contents) = tree.iter().find(|(known, _)| known == path).unwrap();
            read_file(path, contents)
        })
        .collect();
    task_key_with_session(&session(environment), task, &Vec::new(), &files)
}

fn missing() -> IoError {
    IoError::new(IoErrorKind::NotFound, "missing")
}

#[test]
fn hex_digest_uses_lowercase_two_digit_encoding() {
    assert_eq!(hex_digest(&vec![0x00, 0x01, 0xab, 0xff]), "0001abff");
}

#[test]
fn cached_paths_accept_nested_relative_names_only() {
    assert!(validate_cached_path("dist/app.bin").is_ok());
    for unsafe_path in ["", "/tmp/app", "../app", "dist/../../app"] {
        assert!(validate_cached_path(unsafe_path).is_err(), "{unsafe_path}");
    }
}

#[test]
fn hash_string_framing_distinguishes_different_value_boundaries() {
    let mut first = Transcript::new();
    first.hash_strings(&strings(&["ab", "c"]));
    let mut second = Transcript::new();
    second.hash_strings(&strings(&["a", "bc"]));

    assert_ne!(first.finish(), second.finish());
}

#[test]
fn a_digest_is_the_one_of_the_algorithm() {
    assert_eq!(
        file_digest(&Vec::new()),
        "e3b0c44298fc1c149afbf4c8996fb92427ae41e4649b934ca495991b7852b855"
    );
    assert_eq!(
        file_digest(&b"abc".to_vec()),
        "ba7816bf8f01cfea414140de5dae2223b00361a396177a9cb410ff61f20015ad"
    );
}

#[test]
fn the_framing_of_a_text_is_its_length_and_its_bytes() {
    let mut transcript = Transcript::new();
    transcript.hash_string("ab");
    assert_eq!(transcript.bytes, vec![2, 0, 0, 0, 0, 0, 0, 0, b'a', b'b']);
}

#[test]
fn a_mode_is_part_of_a_file() {
    let contents = b"x".to_vec();
    let mut with = Transcript::new();
    with.hash_file("f", &contents, Some(0o755));
    let mut without = Transcript::new();
    without.hash_file("f", &contents, None);
    assert_ne!(with.finish(), without.finish());
}

#[test]
fn destinations_stay_below_the_root() {
    assert!(ensure_inside(ROOT, "/work/dist/app").is_ok());
    assert!(ensure_inside(ROOT, "/workshop/app").is_err());
    assert_eq!(
        component_paths(ROOT, "/work/dist/app"),
        strings(&["/work/dist", "/work/dist/app"])
    );
    assert!(
        ensure_no_symlink_components(ROOT, "/work/dist/app", &vec![Ok(false), Ok(false)]).is_ok()
    );
    assert!(
        ensure_no_symlink_components(ROOT, "/work/dist/app", &vec![Ok(true), Ok(false)]).is_err()
    );
}

#[test]
fn ordered_patterns_apply_the_last_matching_selection() {
    let binding = strings(&["src/**", "!src/generated/**", "src/generated/keep.txt"]);
    let patterns = CachePatterns::compile(&binding);

    assert!(patterns.matches("src/main.rs"));
    assert!(!patterns.matches("src/generated/drop.txt"));
    assert!(patterns.matches("src/generated/keep.txt"));
}

#[test]
fn double_star_matches_zero_or_more_path_segments() {
    let binding = strings(&["src/**/Cargo.toml"]);
    let patterns = CachePatterns::compile(&binding);

    assert!(patterns.matches("src/Cargo.toml"));
    assert!(patterns.matches("src/a/b/Cargo.toml"));
    assert!(!patterns.matches("tests/Cargo.toml"));
}

#[test]
fn directory_pruning_rejects_unreachable_subtrees() {
    let binding = strings(&["src/**/*.rs"]);
    let patterns = CachePatterns::compile(&binding);

    assert!(patterns.could_match_below("src"));
    assert!(patterns.could_match_below("src/lib"));
    assert!(!patterns.could_match_below("target"));
}

#[test]
fn a_star_stands_for_any_run_of_characters() {
    assert!(segment_matches("main.rs", "*.rs"));
    assert!(segment_matches(".rs", "*.rs"));
    assert!(segment_matches("abcbc", "a*bc"));
    assert!(!segment_matches("main.rc", "*.rs"));
}

#[test]
fn a_walk_descends_only_where_something_can_match() {
    let patterns = CachePatterns::compile(&strings(&["src/*.rs"]));
    let directory = |path: &str| WalkEntry {
        path: path.to_owned(),
        kind: EntryKind::Directory,
    };
    assert_eq!(patterns.walk_step(&directory("src")), WalkStep::Descend);
    assert_eq!(patterns.walk_step(&directory("target")), WalkStep::Skip);
    assert_eq!(patterns.walk_step(&directory(".git")), WalkStep::Skip);
    assert_eq!(patterns.walk_step(&file("src/main.rs")), WalkStep::Keep);
    assert!(hidden("a/.mono/b"));
    assert!(!hidden("a/.monorail/b"));
}

#[test]
fn collected_files_are_sorted() {
    let entries = vec![file("src/b.rs"), file("src/a.rs"), file("README.md")];
    assert_eq!(
        collect_files(&entries, &strings(&["src/**"]), "input").unwrap(),
        strings(&["src/a.rs", "src/b.rs"])
    );
}

#[test]
fn mod_creates_a_gitignore_for_cache_storage() {
    assert_eq!(CACHE_GITIGNORE, "*\n!.gitignore\n");
    let path = "/work/.mono/.gitignore";
    assert!(needs_gitignore(path, &Err(missing())).unwrap());
    assert!(!needs_gitignore(path, &Ok(b"*\n!.gitignore\n".to_vec())).unwrap());
    assert!(needs_gitignore(path, &Ok(b"*\n".to_vec())).unwrap());
    let denied = IoError::new(IoErrorKind::PermissionDenied, "denied");
    assert!(needs_gitignore(path, &Err(denied)).is_err());
}

#[test]
fn mod_changing_an_input_changes_the_key() {
    let task = simple_task();
    let first = key_in(&task, &[("input.txt", "input")]).unwrap();
    let second = key_in(&task, &[("input.txt", "changed")]).unwrap();
    assert_ne!(first, second);
}

#[test]
fn mod_changing_the_output_limit_changes_the_key() {
    let task = simple_task();
    let mut changed_task = simple_task();
    changed_task.max_output_bytes += 1;
    let tree = [("input.txt", "input")];
    assert_ne!(
        key_in(&task, &tree).unwrap(),
        key_in(&changed_task, &tree).unwrap()
    );
}

#[test]
fn cache_changing_the_output_limit_changes_the_key() {
    let mut task = simple_task();
    let tree = [("input.txt", "input")];
    let first = key_in(&task, &tree).unwrap();
    task.max_output_bytes += 1;
    let second = key_in(&task, &tree).unwrap();
    assert_ne!(first, second);
}

#[test]
fn a_declared_cache_environment_variable_changes_the_key() {
    let mut task = simple_task();
    task.cache_env = strings(&["MODE"]);
    let tree = [("input.txt", "input")];

    let debug = key_with(&task, &tree, &[("MODE", "debug")]).unwrap();
    let release = key_with(&task, &tree, &[("MODE", "release")]).unwrap();

    assert_ne!(debug, release);
}

#[test]
fn an_unset_cache_environment_variable_hashes_as_unset() {
    let mut task = simple_task();
    task.cache_env = strings(&["MODE"]);
    let tree = [("input.txt", "input")];

    let first = key_with(&task, &tree, &[]).unwrap();
    let second = key_with(&task, &tree, &[]).unwrap();

    assert_eq!(first, second);
}

#[test]
fn a_task_environment_value_overrides_the_process_environment() {
    let mut task = simple_task();
    task.cache_env = strings(&["MODE"]);
    task.env.insert("MODE".to_owned(), "check".to_owned());
    let tree = [("input.txt", "input")];

    let from_task = key_with(&task, &tree, &[("MODE", "debug")]).unwrap();
    let from_task_again = key_with(&task, &tree, &[("MODE", "release")]).unwrap();

    assert_eq!(
        from_task, from_task_again,
        "the task's own env must win over the ambient environment"
    );
}

#[test]
fn a_wildcard_cache_environment_includes_every_variable() {
    let mut task = simple_task();
    task.cache_env = strings(&["*"]);
    let tree = [("input.txt", "input")];

    let one = key_with(&task, &tree, &[("UNRELATED", "one")]).unwrap();
    let two = key_with(&task, &tree, &[("UNRELATED", "two")]).unwrap();

    assert_ne!(one, two);
}

#[test]
fn mod_ignores_files_outside_the_input_patterns() {
    let task = task(&["src/**"], &["dist/**"]);
    let first = key_in(&task, &[("src/input.txt", "input"), ("dist/output.txt", "output")]);
    let second = key_in(
        &task,
        &[
            ("src/input.txt", "input"),
            ("dist/output.txt", "output"),
            ("target/build/object.o", "unrelated"),
        ],
    );
    assert_eq!(first.unwrap(), second.unwrap());
}

#[test]
fn mod_honours_negated_input_patterns() {
    let task = task(&["src/**", "!src/skip.txt"], &["dist/**"]);
    let first = key_in(&task, &[("src/kept.txt", "kept"), ("src/skip.txt", "first")]);
    let second = key_in(&task, &[("src/kept.txt", "kept"), ("src/skip.txt", "second")]);
    assert_eq!(first.unwrap(), second.unwrap());
}

#[test]
fn mod_excludes_outputs_from_the_input_fingerprint() {
    let task = task(&["**"], &["dist/**"]);
    let first = key_in(&task, &[("src/input.txt", "input"), ("dist/output.txt", "first")]);
    let second = key_in(&task, &[("src/input.txt", "input"), ("dist/output.txt", "second")]);
    assert_eq!(first.unwrap(), second.unwrap());
}

#[test]
fn mod_reports_an_input_pattern_that_matches_no_files() {
    let task = task(&["src/**", "missing/**"], &["dist/**"]);

    let error = key_in(&task, &[("src/input.txt", "input")])
        .expect_err("an unmatched pattern must fail");
    assert!(error.message().contains("missing/**"));
}

#[test]
fn mod_rejects_a_symlink_input_match() {
    let task = task(&["src/**"], &["dist/**"]);
    let entries = vec![file("src/input.txt"), symlink("src/link.txt")];

    let error = input_files(&task, &entries).expect_err("symlinks cannot be fingerprinted");
    assert!(error.message().contains("unsupported symlink"));
}

#[test]
fn a_directory_outside_the_root_has_no_key() {
    let mut task = simple_task();
    task.cwd = "/elsewhere".to_owned();
    let error = key_in(&task, &[("input.txt", "input")]).unwrap_err();
    assert_eq!(
        error.message(),
        "invalid cache entry: task 'build' working directory is outside the project root"
    );
}

/// What is found of an entry that was just stored.
fn observed(
    task: &PlannedTask,
    key: &str,
    files: &[ReadFile],
    probes: &[Vec<Result<bool, IoError>>],
) -> EntryObservation {
    let held: Vec<ReadFile> = files
        .iter()
        .map(|file| ReadFile {
            path: file.path.clone(),
            contents: file.contents.clone(),
            mode: file.mode,
        })
        .collect();
    EntryObservation {
        metadata: Ok(Some(store_metadata(task, key, &held).expect("store succeeds"))),
        stdout: Ok(b"out".to_vec()),
        stderr: Ok(b"err".to_vec()),
        outputs: files
            .iter()
            .zip(probes)
            .map(|(file, probes)| OutputObservation {
                plain: Ok(true),
                contents: Ok(file.contents.clone()),
                probes: probes.clone(),
            })
            .collect(),
    }
}

#[test]
fn mod_stores_and_restores_a_successful_task() {
    let task = simple_task();
    let store = CacheStore::new(ROOT);
    assert_eq!(store.root, "/work/.mono/cache");
    let key = key_in(&task, &[("input.txt", "input")]).unwrap();
    let files = [read_file("output.txt", "input")];
    let seen = observed(&task, &key, &files, &[vec![Err(missing())]]);

    let restored = store
        .lookup(&task, &key, &seen)
        .expect("lookup succeeds")
        .expect("cache hit");
    assert_eq!(restored.output.stdout, b"out".to_vec());
    assert_eq!(restored.output.stderr, b"err".to_vec());
    assert_eq!(restored.restores.len(), 1);
    assert_eq!(restored.restores[0].destination, "/work/output.txt");
    assert_eq!(
        restored.restores[0].source,
        format!("/work/.mono/cache/{key}/outputs/output.txt")
    );
    assert_eq!(restored.restores[0].mode, Some(0o644));
}

#[test]
fn mod_stores_and_restores_nested_outputs() {
    let task = task(&["src/**"], &["dist/**"]);
    let store = CacheStore::new(ROOT);
    assert_eq!(
        output_files(&task, &vec![file("dist/nested/artifact.txt"), file("src/input.txt")]).unwrap(),
        strings(&["dist/nested/artifact.txt"])
    );
    let files = [read_file("dist/nested/artifact.txt", "nested")];
    let seen = observed(
        &task,
        "key",
        &files,
        &[vec![Err(missing()), Err(missing()), Err(missing())]],
    );

    let restored = store
        .lookup(&task, "key", &seen)
        .expect("lookup succeeds")
        .expect("cache hit");
    assert_eq!(
        restored.restores[0].destination,
        "/work/dist/nested/artifact.txt"
    );
}

#[test]
fn mod_refuses_to_restore_through_a_destination_symlink() {
    let task = simple_task();
    let store = CacheStore::new(ROOT);
    let files = [read_file("output.txt", "input")];
    let seen = observed(&task, "key", &files, &[vec![Ok(true)]]);

    let error = store
        .lookup(&task, "key", &seen)
        .expect_err("symlink destination must be rejected");

    assert!(error.message().contains("symlink"));
}

#[test]
fn mod_refuses_to_restore_through_a_symlinked_output_parent() {
    let task = task(&["src/**"], &["dist/**"]);
    let store = CacheStore::new(ROOT);
    let files = [read_file("dist/nested/artifact.txt", "cached")];
    let seen = observed(
        &task,
        "key",
        &files,
        &[vec![Ok(true), Ok(false), Ok(false)]],
    );

    let error = store
        .lookup(&task, "key", &seen)
        .expect_err("symlinked parent must be rejected");

    assert!(error.message().contains("symlink"));
}

#[test]
fn mod_preflight_validates_all_outputs_before_copying_any() {
    let task = task(&["input.txt"], &["output1.txt", "deep/output2.txt"]);
    let store = CacheStore::new(ROOT);
    let files = [
        read_file("output1.txt", "first"),
        read_file("deep/output2.txt", "second"),
    ];
    let seen = observed(
        &task,
        "key",
        &files,
        &[vec![Ok(false)], vec![Ok(false), Ok(true)]],
    );

    let error = store
        .lookup(&task, "key", &seen)
        .expect_err("symlink in a later output must be rejected");

    assert!(error.message().contains("symlink"));
}

#[test]
fn an_entry_that_does_not_describe_the_key_is_no_hit() {
    let task = simple_task();
    let store = CacheStore::new(ROOT);
    let files = [read_file("output.txt", "input")];
    let seen = observed(&task, "key", &files, &[vec![Ok(false)]]);
    assert!(store.lookup(&task, "other", &seen).unwrap().is_none());

    let absent = EntryObservation {
        metadata: Err(missing()),
        stdout: Err(missing()),
        stderr: Err(missing()),
        outputs: Vec::new(),
    };
    assert!(store.lookup(&task, "key", &absent).unwrap().is_none());

    let mut changed = observed(&task, "key", &files, &[vec![Ok(false)]]);
    changed.outputs[0].contents = Ok(b"tampered".to_vec());
    assert!(store.lookup(&task, "key", &changed).unwrap().is_none());
}

#[test]
fn another_process_may_have_stored_the_entry_first() {
    let taken = IoError::new(IoErrorKind::AlreadyExists, "exists");
    assert!(store_outcome("/work/.mono/cache/key", Err(taken)).is_ok());
    assert!(store_outcome("/work/.mono/cache/key", Ok(())).is_ok());
    assert!(store_outcome("/work/.mono/cache/key", Err(missing())).is_err());
    assert_eq!(
        CacheStore::new(ROOT).temporary_path(7, 3),
        "/work/.mono/cache/.tmp-7-3"
    );
}

#[test]
fn cache_errors_expose_a_source_exactly_when_they_wrap_one() {
    let io_error = CacheError::Io {
        path: "entry".to_owned(),
        source: missing(),
    };
    let json_error = CacheError::Json {
        path: "metadata.json".to_owned(),
        source: "EOF while parsing an object".to_owned(),
    };
    let invalid = CacheError::Invalid {
        message: "unsafe path".to_owned(),
    };

    assert!(io_error.source().is_some());
    assert!(json_error.source().is_some());
    assert!(invalid.source().is_none());
    assert!(!invalid.message().is_empty());
}

#[test]
fn a_forced_run_refreshes_the_entry_that_is_there() {
    assert_eq!(publication(true, true), Publication::Replace);
    assert_eq!(publication(true, false), Publication::Keep);
    assert_eq!(publication(false, true), Publication::Publish);
    assert_eq!(publication(false, false), Publication::Publish);
}

#[test]
fn every_setting_of_a_task_changes_the_key() {
    let tree = [("input.txt", "input")];
    let mut keys = vec![key_in(&simple_task(), &tree).unwrap()];
    for change in [
        (|task: &mut PlannedTask| task.command.push("--more".to_owned())) as fn(&mut PlannedTask),
        |task| task.timeout.nanos += 1_000_000_000,
        |task| task.max_output_bytes += 1,
        |task| task.retries += 1,
        |task| task.retry_backoff.nanos += 1_000_000_000,
        |task| task.resource_group = Some("database".to_owned()),
        |task| task.outputs.push("dist/**".to_owned()),
        |task| task.id.push('x'),
    ] {
        let mut task = simple_task();
        change(&mut task);
        keys.push(key_in(&task, &tree).unwrap());
    }
    let files = vec![read_file("input.txt", "input")];
    for dependency in ["one", "two"] {
        keys.push(
            task_key_with_session(
                &session(&[]),
                &simple_task(),
                &vec![dependency.to_owned()],
                &files,
            )
            .unwrap(),
        );
    }

    for (place, key) in keys.iter().enumerate() {
        assert!(!keys[..place].contains(key));
    }
}
