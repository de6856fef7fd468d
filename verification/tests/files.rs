use mono::atomic_file::{published_mode, temporary_for, Temporary, DEFAULT_FILE_MODE};
use mono::fixture::{
    parse_code, question, read_count, run, Count, Effect, Question, FIXTURE_USAGE_ERROR,
};
use mono::io::{IoError, IoErrorKind};
use mono::map::TextMap;
use mono::platform::{termination_failure_means_already_exited, termination_outcome};
use mono::path::{ancestors_of, file_name_of, join_paths, parent_of, relative_path};

fn words(args: &[&str]) -> Vec<String> {
    args.iter().map(|word| (*word).to_owned()).collect()
}

fn missing() -> IoError {
    IoError::new(IoErrorKind::NotFound, "missing")
}

fn denied() -> IoError {
    IoError::new(IoErrorKind::PermissionDenied, "denied")
}

#[test]
fn a_file_is_written_next_to_its_destination() {
    assert_eq!(
        temporary_for("/work/mono.toml"),
        Temporary {
            directory: "/work".to_owned(),
            prefix: ".mono.toml.".to_owned(),
            suffix: ".tmp".to_owned(),
        }
    );
    assert_eq!(temporary_for("mono.toml").directory, ".");
}

#[test]
fn a_published_file_is_not_owner_only() {
    assert_eq!(published_mode(Err(missing())), Ok(DEFAULT_FILE_MODE));
    assert_eq!(DEFAULT_FILE_MODE & 0o777, 0o644);
}

#[test]
fn replacing_a_file_keeps_its_permissions() {
    assert_eq!(published_mode(Ok(0o100640)), Ok(0o640));
    assert_eq!(published_mode(Err(denied())), Err(denied()));
}

#[test]
fn paths_are_taken_apart() {
    assert_eq!(parent_of("/work/src/"), Some("/work".to_owned()));
    assert_eq!(parent_of("/"), None);
    assert_eq!(parent_of("file"), Some(String::new()));
    assert_eq!(file_name_of("/work/src"), Some("src".to_owned()));
    assert_eq!(file_name_of("/"), None);
    assert_eq!(ancestors_of("/work/src"), words(&["/work/src", "/work", "/"]));
    assert_eq!(join_paths("/work", "src"), "/work/src");
    assert_eq!(join_paths("/work", "/src"), "/src");
    assert_eq!(relative_path("a//./b/"), "a/b");
}

#[test]
fn a_map_is_kept_in_key_order() {
    let mut map = TextMap::new();
    map.insert("b".to_owned(), 1);
    map.insert("a".to_owned(), 2);
    map.insert("b".to_owned(), 3);
    assert_eq!(map.len(), 2);
    assert_eq!(map.key_at(0), "a");
    assert_eq!(map.get("b"), Some(&3));
    assert_eq!(map.get("c"), None);
}

#[test]
fn every_verb_has_its_effects() {
    let script = run(&words(&["print", "hello"]), false, 0);
    assert_eq!(script.effects, vec![Effect::Stdout("hello".to_owned())]);
    assert_eq!(script.end, Ok(0));

    assert_eq!(run(&words(&["fail", "7"]), false, 0).end, Ok(7));

    let script = run(&words(&["fail-with", "7", "broken"]), false, 0);
    assert_eq!(script.effects, vec![Effect::Stderr("broken".to_owned())]);
    assert_eq!(script.end, Ok(7));

    let script = run(&words(&["delay-print", "a", "50", "b"]), false, 0);
    assert_eq!(
        script.effects,
        vec![
            Effect::Stdout("a".to_owned()),
            Effect::Flush,
            Effect::Sleep { millis: 50 },
            Effect::Stdout("b".to_owned()),
        ]
    );

    let script = run(&words(&["count-copy", "n", "from", "to"]), false, 41);
    assert_eq!(
        script.effects[0],
        Effect::Write {
            path: "n".to_owned(),
            text: "42\n".to_owned()
        }
    );
    assert_eq!(script.effects.len(), 2);

    let first = run(&words(&["fail-once", "m", "5", "ok"]), false, 0);
    assert_eq!(first.end, Ok(5));
    let second = run(&words(&["fail-once", "m", "5", "ok"]), true, 0);
    assert_eq!(second.end, Ok(0));
    assert_eq!(second.effects, vec![Effect::Stdout("ok".to_owned())]);

    assert_eq!(run(&words(&["write-if-exists", "c", "m"]), false, 0).end, Ok(1));

    let script = run(&words(&["timeout-tree", "9", "m"]), false, 0);
    assert_eq!(
        script.effects[1],
        Effect::Sleep {
            millis: 3_600_000
        }
    );
}

#[test]
fn a_bad_invocation_is_a_complaint() {
    assert_eq!(FIXTURE_USAGE_ERROR, 3);
    for args in [
        vec![],
        vec!["unknown"],
        vec!["print"],
        vec!["fail", "many"],
        vec!["write-many", "path"],
        vec!["sleep-write", "soon", "m"],
    ] {
        assert!(run(&words(&args), false, 0).end.is_err(), "{args:?}");
    }
    let script = run(&words(&["streams", "out"]), false, 0);
    assert_eq!(script.effects, vec![Effect::Stdout("out".to_owned())]);
    assert!(script.end.is_err());
}

#[test]
fn a_verb_asks_for_what_it_depends_on() {
    assert_eq!(question(&words(&["print", "a"])), Question::Nothing);
    assert_eq!(
        question(&words(&["fail-once", "m", "5", "ok"])),
        Question::Exists("m".to_owned())
    );
    assert_eq!(
        question(&words(&["count-copy", "n", "a", "b"])),
        Question::Count("n".to_owned())
    );
}

#[test]
fn counts_and_codes_are_numbers() {
    assert_eq!(read_count(Ok("41\n".to_owned())), Count::Known(41));
    assert_eq!(read_count(Ok("many".to_owned())), Count::Malformed);
    assert_eq!(read_count(Err(missing())), Count::Known(0));
    assert_eq!(read_count(Err(denied())), Count::Failed(denied()));
    assert_eq!(parse_code("-1"), Ok(-1));
    assert_eq!(parse_code("2147483647"), Ok(i32::MAX));
    assert!(parse_code("2147483648").is_err());
    assert!(parse_code("").is_err());
}

#[test]
fn a_tree_that_is_gone_needs_no_killing() {
    let failed = || Err(denied());
    assert!(termination_failure_means_already_exited(
        IoErrorKind::PermissionDenied,
        true
    ));
    assert!(!termination_failure_means_already_exited(
        IoErrorKind::PermissionDenied,
        false
    ));
    assert!(!termination_failure_means_already_exited(IoErrorKind::NotFound, true));
    assert_eq!(termination_outcome(Ok(()), false, false), Ok(()));
    assert_eq!(termination_outcome(failed(), true, false), Ok(()));
    assert_eq!(termination_outcome(failed(), false, true), Ok(()));
    assert_eq!(termination_outcome(failed(), false, false), failed());
}
