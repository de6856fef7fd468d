use mono::changelog::date::{civil_from_days, date_from_unix_seconds};
use mono::changelog::{is_valid_date, today, Action, Changelog, Heading, Request, Version};

const SAMPLE: &str = "# Changelog\n\n## 1.2.0\nReleased: 2026-09-11\n\n### Features\n\n- New thing.\n\n## 1.1.0\nReleased: 2026-09-10\n\n- Old thing.\n";

#[test]
fn parse_then_render_is_lossless() {
    assert_eq!(Changelog::parse(SAMPLE).unwrap().render(), SAMPLE);
}

#[test]
fn rejects_unrecognized_heading() {
    let error = Changelog::parse("# Changelog\n\n## beta\n").unwrap_err();
    assert!(error.contains("unrecognized entry heading"));
}

#[test]
fn rejects_unreleased_below_a_version() {
    let error =
        Changelog::parse("# Changelog\n\n## 1.0.0\nReleased: 2026-01-01\n\n## (unreleased)\n")
            .unwrap_err();
    assert!(error.contains("must be the newest entry"));
}

#[test]
fn promotes_unreleased_without_provider_data() {
    let mut changelog = Changelog::parse(
        "# Changelog\n\n## (unreleased)\n\n- Pending.\n\n## 1.0.0\nReleased: 2026-01-01\n",
    )
    .unwrap();
    let action = changelog
        .scaffold(Request::parse("1.1.0").unwrap(), "2026-09-11", &Vec::new())
        .unwrap();
    assert!(matches!(action, Action::Renamed { .. }));
    assert!(changelog.render().contains("## 1.1.0\n"));
}

#[test]
fn infers_the_next_patch_version_from_the_top_entry() {
    let changelog = Changelog::parse(
        "# Changelog\n\n## 1.2.3\nReleased: 2026-01-01\n\n## 1.2.2\nReleased: 2025-12-01\n",
    )
    .unwrap();

    assert_eq!(changelog.next_version().unwrap().text(), "1.2.4");
}

#[test]
fn does_not_infer_a_version_from_unreleased() {
    let changelog = Changelog::parse("# Changelog\n\n## (unreleased)\n").unwrap();

    assert!(changelog.next_version().is_err());
}

#[test]
fn rejects_patch_version_overflow() {
    let changelog =
        Changelog::parse("# Changelog\n\n## 1.2.18446744073709551615\nReleased: 2026-01-01\n")
            .unwrap();

    assert!(changelog.next_version().is_err());
}

#[test]
fn versions_are_strict() {
    assert!(Version::parse("1.2.3").is_some());
    assert!(Version::parse("01.2.3").is_none());
    assert!(Version::parse("1.2").is_none());
    assert!(Version::parse("1.2.x").is_none());
}

#[test]
fn release_dates_are_real_iso_dates() {
    assert!(is_valid_date("2026-09-11"));
    assert!(is_valid_date("2024-02-29"));
    assert!(!is_valid_date("2023-02-29"));
    assert!(!is_valid_date("2026-04-31"));
    assert!(!is_valid_date("2026-9-11"));
}

#[test]
fn rejects_duplicate_unreleased_entries() {
    let error = Changelog::parse(
        "# Changelog\n\n## (unreleased)\n\nPending.\n\n## (unreleased)\n\nMore pending.\n",
    )
    .unwrap_err();
    assert!(error.contains("only one"));
}

#[test]
fn epoch_and_known_dates_convert_exactly() {
    assert_eq!(date_from_unix_seconds(0), "1970-01-01");
    assert_eq!(date_from_unix_seconds(86_400), "1970-01-02");
    assert_eq!(date_from_unix_seconds(951_782_400), "2000-02-29");
    assert_eq!(date_from_unix_seconds(1_789_084_800), "2026-09-11");
}

#[test]
fn leap_day_rules_are_gregorian() {
    assert_eq!(date_from_unix_seconds(1_709_164_800), "2024-02-29");
    assert_eq!(civil_from_days(-25_508), (1900, 3, 1));
    assert_eq!(civil_from_days(11_016), (2000, 2, 29));
}

#[test]
fn the_clock_reads_as_a_valid_date() {
    let date = today(1_789_084_801);
    assert_eq!(date, "2026-09-11");
    assert!(is_valid_date(&date));
}

#[test]
fn a_version_is_read_back_from_its_text() {
    let version = Version::parse("10.0.18446744073709551615").unwrap();
    assert_eq!(version.text(), "10.0.18446744073709551615");
    assert_eq!(version.next_patch(), None);
    assert_eq!(Version::parse("1.2.18446744073709551616"), None);
}

#[test]
fn a_request_may_carry_a_leading_v_and_spaces() {
    assert_eq!(
        Request::parse(" v1.2.3 ").unwrap(),
        Request::Version(Version::parse("1.2.3").unwrap())
    );
    assert_eq!(Request::parse("unreleased").unwrap(), Request::Unreleased);
    assert!(Request::parse("banana").is_err());
}

#[test]
fn a_file_without_its_title_is_no_changelog() {
    assert_eq!(
        Changelog::parse("## 1.0.0\nReleased: 2026-01-01\n").unwrap_err(),
        "expected the file to start with `# Changelog`"
    );
}

#[test]
fn scaffolding_keeps_the_changelog_readable() {
    let mut changelog = Changelog::parse(SAMPLE).unwrap();
    let bullets = vec!["- Fix. (#7)".to_owned()];
    let action = changelog
        .scaffold(Request::parse("1.3.0").unwrap(), "2026-09-12", &bullets)
        .unwrap();
    assert!(matches!(action, Action::Inserted));
    let again = Changelog::parse(&changelog.render()).unwrap();
    assert_eq!(again.entry_count(), 3);
    assert_eq!(
        again.top().heading,
        Heading::Version(Version::parse("1.3.0").unwrap())
    );
    assert!(again.render().contains("- Fix. (#7)\n"));
}

#[test]
fn scaffolding_a_known_version_is_refused() {
    let mut changelog = Changelog::parse(SAMPLE).unwrap();
    let before = changelog.render();
    assert!(changelog
        .scaffold(Request::parse("1.1.0").unwrap(), "2026-09-12", &Vec::new())
        .is_err());
    assert_eq!(changelog.render(), before);
}

#[test]
fn an_entry_is_what_stands_between_two_headings() {
    let text = "# Changelog\r\n\r\n## (unreleased)\r\n- Soon.\n\n## 1.2.0\nReleased: 2026-09-11\n\n### Fixes\n\n## 1.1.0\nReleased: 2026-09-10";
    let changelog = Changelog::parse(text).expect("the changelog parses");
    let body = |heading: Heading| changelog.entry(heading).map(|entry| entry.body.as_str());
    let version = |text: &str| Heading::Version(Version::parse(text).expect("a version"));

    assert_eq!(body(Heading::Unreleased), Some("- Soon.\n\n"));
    assert_eq!(
        body(version("1.2.0")),
        Some("Released: 2026-09-11\n\n### Fixes\n\n")
    );
    assert_eq!(body(version("1.1.0")), Some("Released: 2026-09-10"));
    assert_eq!(body(version("1.0.0")), None);
}
