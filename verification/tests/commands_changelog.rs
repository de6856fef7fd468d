use mono::changelog::{today, Changelog, Request};
use mono::commands::changelog::{
    bounded_text, check_prepare_from_git, format_git_bullets, git_merge_log, git_range, notes,
    prepare, prepare_from_git, prepare_from_git_with, prepare_on, release_notes, render_notes,
    scaffold, scaffold_on, validate, validate_pull_request_url, validate_ref, write_failure,
    ChangelogError, GitOutput, ReleaseNotesTarget, DEFAULT_NOTES_PATH, DEFAULT_PATH,
};
use mono::io::{IoError, IoErrorKind};

/// Noon of 2026-09-11.
const NOW: u64 = 1_789_128_000;

fn read(contents: &str) -> Result<String, IoError> {
    Ok(contents.to_owned())
}

fn missing() -> IoError {
    IoError::new(IoErrorKind::NotFound, "missing")
}

#[test]
fn validates_a_changelog() {
    let contents = read("# Changelog\n\n## 1.0.0\nReleased: 2026-09-11\n");

    let output = validate(DEFAULT_PATH, &contents).unwrap();
    assert!(output.contains("validated"));
    assert!(output.contains("1 entries"));
    assert_eq!(output, "validated CHANGELOG.md (1 entries)");
}

#[test]
fn an_unreadable_changelog_is_a_read_failure() {
    let error = validate(DEFAULT_PATH, &Err(missing())).unwrap_err();
    assert!(matches!(error, ChangelogError::Read { .. }));
}

#[test]
fn writes_notes_for_the_requested_entry() {
    let contents = read("# Changelog\n\n## 1.0.0\nReleased: 2026-09-11\n\n- Shipped.\n");

    let written = notes(DEFAULT_PATH, &contents, "v1.0.0", DEFAULT_NOTES_PATH).unwrap();
    assert!(written.contents.contains("# 1.0.0"));
    assert!(written.contents.contains("- Shipped."));
    assert_eq!(written.message, format!("wrote {DEFAULT_NOTES_PATH}"));
}

#[test]
fn prepare_infers_the_next_patch_version_and_uses_the_supplied_date() {
    let contents = read("# Changelog\n\n## 1.0.0\nReleased: 2026-01-01\n");

    let written = prepare(DEFAULT_PATH, &contents, None, Some("2001-02-03"), NOW).unwrap();

    assert!(written.message.contains("prepared ## 1.0.1"), "{}", written.message);
    assert!(written.contents.contains("## 1.0.1\n"), "{}", written.contents);
    assert!(
        written.contents.contains("Released: 2001-02-03\n"),
        "{}",
        written.contents
    );
}

#[test]
fn prepare_on_is_deterministic_without_a_clock() {
    let contents = read("# Changelog\n\n## 1.0.0\nReleased: 2026-01-01\n");

    let written = prepare_on(DEFAULT_PATH, &contents, None, "2001-02-03").unwrap();

    assert!(written.contents.contains("Released: 2001-02-03\n"));
}

#[test]
fn prepare_rejects_an_invalid_date_without_writing() {
    let contents = read("# Changelog\n\n## 1.0.0\nReleased: 2026-01-01\n");

    let error = prepare(DEFAULT_PATH, &contents, None, Some("2026-02-30"), NOW).unwrap_err();

    assert!(error.message().contains("invalid release date"));
}

#[test]
fn prepare_can_start_an_unreleased_entry() {
    let contents = read("# Changelog\n\n## 1.0.0\nReleased: 2026-01-01\n");

    let written = prepare(
        DEFAULT_PATH,
        &contents,
        Some("unreleased"),
        Some("2001-02-03"),
        NOW,
    )
    .unwrap();

    assert!(written.contents.starts_with("# Changelog\n\n## (unreleased)\n"));
    assert!(written.contents.contains("Released: 2001-02-03\n"));
}

#[test]
fn prepare_dates_an_entry_by_the_clock() {
    let contents = read("# Changelog\n\n## 1.0.0\nReleased: 2026-01-01\n");

    let written = prepare(DEFAULT_PATH, &contents, None, None, NOW).unwrap();

    assert!(written.contents.contains("Released: 2026-09-11\n"));
}

#[test]
fn render_notes_is_pure_and_preserves_the_entry_body() {
    let changelog =
        Changelog::parse("# Changelog\n\n## 1.0.0\nReleased: 2026-09-11\n\n- Shipped.\n").unwrap();

    let notes = render_notes(&changelog, Request::parse("1.0.0").unwrap()).unwrap();

    assert_eq!(
        notes,
        "# 1.0.0\n\n## Changelog\n\nReleased: 2026-09-11\n\n- Shipped.\n"
    );
}

#[test]
fn release_notes_target_rejects_disagreeing_inputs() {
    let error = ReleaseNotesTarget::parse(Some("1.0.0"), Some("v1.0.1")).unwrap_err();

    assert!(error.message().contains("does not match --release-tag"));
}

#[test]
fn release_notes_require_the_newest_entry() {
    let contents = read("# Changelog\n\n## 1.1.0\nReleased: 2026-09-12\n\n- New.\n\n## 1.0.0\nReleased: 2026-09-11\n\n- Old.\n");

    let target = ReleaseNotesTarget::parse(Some("1.0.0"), None).unwrap();
    let error = release_notes(DEFAULT_PATH, &contents, target, DEFAULT_NOTES_PATH).unwrap_err();

    assert!(error.message().contains("must match the newest"));
}

#[test]
fn release_notes_default_to_the_newest_entry() {
    let contents = read("# Changelog\n\n## 1.1.0\nReleased: 2026-09-12\n\n- New.\n\n## 1.0.0\nReleased: 2026-09-11\n\n- Old.\n");

    let target = ReleaseNotesTarget::parse(None, None).unwrap();
    let written = release_notes(DEFAULT_PATH, &contents, target, DEFAULT_NOTES_PATH).unwrap();

    assert!(written.contents.contains("- New."));
    assert!(!written.contents.contains("- Old."));
}

#[test]
fn an_unreleased_entry_cannot_be_released() {
    let contents = read("# Changelog\n\n## (unreleased)\n\n- Pending.\n");

    let target = ReleaseNotesTarget::parse(None, None).unwrap();
    let error = release_notes(DEFAULT_PATH, &contents, target, DEFAULT_NOTES_PATH).unwrap_err();

    assert!(error.message().contains("promote it before releasing"));
}

#[test]
fn git_merge_subjects_become_editable_bullets() {
    let log = "Merge pull request #42 from team/feature\x1f\nAdd the feature\x1eMerge branch fix\x1f\nFix the bug\x1e";

    assert_eq!(
        format_git_bullets(log, None),
        vec![
            "- #42\n\n  Add the feature".to_owned(),
            "- Fix the bug".to_owned(),
        ]
    );
    assert_eq!(
        format_git_bullets(
            log,
            Some("https://github.com/example/project/pull/{number}")
        ),
        vec![
            "- [#42](https://github.com/example/project/pull/42)\n\n  Add the feature".to_owned(),
            "- Fix the bug".to_owned(),
        ]
    );
}

#[test]
fn bounded_git_errors_are_limited_and_marked() {
    let text = bounded_text(&b"abcdefghijklmnopqrstuvwxyz".to_vec(), 8);

    assert_eq!(text, "abcdefgh…");
}

#[test]
fn bytes_that_are_no_text_are_marked() {
    assert_eq!(bounded_text(&vec![b'a', 0xff, b'b'], 8), "a\u{fffd}b");
    assert_eq!(bounded_text(&"äö".as_bytes().to_vec(), 8), "äö");
}

#[test]
fn prepare_validates_local_input_before_running_git() {
    let contents = read("not a changelog");

    let error = check_prepare_from_git(
        DEFAULT_PATH,
        &contents,
        None,
        "2001-02-03",
        "bad ref",
        "HEAD",
        None,
    )
    .unwrap_err();

    assert!(error.message().contains("expected the file to start"));
}

#[test]
fn revisions_that_look_like_options_are_refused() {
    let contents = read("# Changelog\n\n## 1.0.0\nReleased: 2026-01-01\n");
    assert!(validate_ref("HEAD").is_ok());
    assert!(validate_ref("").is_err());
    assert!(validate_ref("--all").is_err());
    assert!(validate_ref("bad ref").is_err());
    let error = check_prepare_from_git(
        DEFAULT_PATH,
        &contents,
        None,
        "2001-02-03",
        "bad ref",
        "HEAD",
        None,
    )
    .unwrap_err();
    assert!(matches!(error, ChangelogError::Invalid(_)));
}

#[test]
fn scripted_git_log_prepares_without_spawning_git() {
    let contents = read("# Changelog\n\n## 1.0.0\nReleased: 2026-01-01\n");
    assert_eq!(git_range("FROM", "TO"), "FROM..TO");

    let written = prepare_from_git_with(
        DEFAULT_PATH,
        &contents,
        None,
        "2001-02-03",
        "FROM",
        "TO",
        None,
        Ok("Merge pull request #42 from team/feature\x1f\nAdd the feature\x1e".to_owned()),
    )
    .expect("scripted Git log succeeds");

    assert!(written.message.contains("1 Git changes"), "{}", written.message);
    assert!(written.contents.contains("#42"));
}

#[test]
fn a_log_without_merges_is_a_warning() {
    let contents = read("# Changelog\n\n## 1.0.0\nReleased: 2026-01-01\n");

    let written = prepare_from_git_with(
        DEFAULT_PATH,
        &contents,
        None,
        "2001-02-03",
        "FROM",
        "TO",
        None,
        Ok(String::new()),
    )
    .unwrap();

    assert!(written
        .message
        .ends_with("; warning: no first-parent merge commits found in FROM..TO"));
}

#[test]
fn scripted_git_failure_is_returned_without_writing() {
    let contents = read("# Changelog\n\n## 1.0.0\nReleased: 2026-01-01\n");

    let error = prepare_from_git_with(
        DEFAULT_PATH,
        &contents,
        None,
        "2001-02-03",
        "FROM",
        "TO",
        None,
        Err(ChangelogError::CommandFailed {
            command: "git log".to_owned(),
            status: Some(128),
            stderr: "bad ref".to_owned(),
        }),
    )
    .expect_err("scripted Git failure is returned");

    assert!(matches!(error, ChangelogError::CommandFailed { .. }));
}

#[test]
fn git_failure_leaves_the_changelog_untouched() {
    let contents = read("# Changelog\n\n## 1.0.0\nReleased: 2026-01-01\n");
    let output = GitOutput {
        success: false,
        code: Some(128),
        stdout: Vec::new(),
        stderr: b"fatal: not a git repository".to_vec(),
    };

    let log = git_merge_log("HEAD", "HEAD", Ok(output));
    let error =
        prepare_from_git(DEFAULT_PATH, &contents, None, None, NOW, "HEAD", "HEAD", None, log)
            .unwrap_err();

    assert!(matches!(error, ChangelogError::CommandFailed { .. }));
    assert!(error.message().contains("not a git repository"));
}

#[test]
fn a_git_that_cannot_be_run_is_a_command_failure() {
    let log = git_merge_log("HEAD", "HEAD", Err(missing()));
    let error = log.unwrap_err();
    assert!(matches!(error, ChangelogError::Command { .. }));
    assert_eq!(error.source(), Some("missing".to_owned()));
}

#[test]
fn pull_request_url_templates_require_the_number_placeholder() {
    let error = validate_pull_request_url(Some("https://example.test/pull")).unwrap_err();

    assert!(error.message().contains("{number}"));
}

#[test]
fn scaffold_refuses_a_duplicate_version() {
    let contents = read("# Changelog\n\n## 1.0.0\nReleased: 2026-09-11\n");

    let error = scaffold(DEFAULT_PATH, &contents, "1.0.0", NOW).unwrap_err();
    assert!(error.message().contains("already exists"));
}

#[test]
fn scaffold_replaces_changelog_without_leaving_temporary_files() {
    let contents = read("# Changelog\n\n## 1.0.0\nReleased: 2026-09-11\n");

    let written = scaffold(DEFAULT_PATH, &contents, "1.1.0", NOW).expect("scaffold succeeds");

    assert!(written.contents.contains("## 1.1.0"));
}

#[test]
fn notes_rejects_an_empty_entry_without_writing_the_output_file() {
    let contents = read("# Changelog\n\n## (unreleased)\n");

    let error = notes(DEFAULT_PATH, &contents, "unreleased", DEFAULT_NOTES_PATH)
        .expect_err("empty entry fails");

    assert!(error.message().contains("entry `## (unreleased)` is empty"));
}

#[test]
fn scaffold_on_writes_the_supplied_date() {
    let contents = read("# Changelog\n\n## 1.0.0\nReleased: 2026-01-01\n");

    let written =
        scaffold_on(DEFAULT_PATH, &contents, "1.1.0", "2001-02-03").expect("scaffold succeeds");

    assert!(written.contents.contains("## 1.1.0\n"), "{}", written.contents);
    assert!(
        written.contents.contains("Released: 2001-02-03\n"),
        "{}",
        written.contents
    );
    assert!(!written.contents.contains(&format!("Released: {}\n", today(NOW))));
}

#[test]
fn changelog_errors_expose_a_source_only_for_read_and_write() {
    let read = ChangelogError::Read {
        path: "CHANGELOG.md".to_owned(),
        source: missing(),
    };
    let invalid = ChangelogError::Invalid("no entries".to_owned());

    assert!(read.source().is_some(), "{}", read.message());
    assert!(invalid.source().is_none(), "{}", invalid.message());
    assert!(!invalid.message().is_empty());
    let write = write_failure("CHANGELOG.md", missing());
    assert!(write.source().is_some(), "{}", write.message());
}
