use mono::cache::pattern::EntryKind;
use mono::commands::changelog::GitOutput;
use mono::commands::release::{manifest, source, verify};
use mono::io::{IoError, IoErrorKind};
use mono::release::{
    check_source_request, compare_identity, create_manifest, git, read_checksums, relative_name,
    render_checksums, verify_checksums, verify_manifest, verify_source, Artifact, ChecksumProbe,
    FoundEntry, MetadataRead, ReleaseError, ReleaseIdentity, CHECKSUMS_FILE_NAME,
    METADATA_FILE_NAME,
};

const DIRECTORY: &str = "/release";

fn entry(relative: &str, kind: EntryKind, contents: &[u8]) -> FoundEntry {
    FoundEntry {
        path: format!("{DIRECTORY}/{relative}"),
        relative: relative.to_owned(),
        kind,
        contents: Ok(contents.to_vec()),
    }
}

fn file(relative: &str, contents: &[u8]) -> FoundEntry {
    entry(relative, EntryKind::File, contents)
}

fn tagged(tag: &str) -> ReleaseIdentity {
    ReleaseIdentity {
        release_tag: Some(tag.to_owned()),
        ..ReleaseIdentity::unknown()
    }
}

fn missing() -> IoError {
    IoError::new(IoErrorKind::NotFound, "missing")
}

#[test]
fn creates_and_verifies_a_deterministic_manifest() {
    let entries = vec![
        file("zeta.bin", b"z"),
        entry("nested", EntryKind::Directory, b""),
        file("nested/alpha.bin", b"a"),
    ];
    let manifest = create_manifest(DIRECTORY, true, &entries, tagged("v1.2.3")).unwrap();

    assert_eq!(
        manifest
            .artifacts
            .iter()
            .map(|artifact| artifact.name.as_str())
            .collect::<Vec<_>>(),
        vec!["nested/alpha.bin", "zeta.bin"]
    );
    let checksums = render_checksums(&manifest.artifacts);
    let written = vec![
        file("zeta.bin", b"z"),
        file(METADATA_FILE_NAME, b"{}"),
        file(CHECKSUMS_FILE_NAME, checksums.as_bytes()),
        entry("nested", EntryKind::Directory, b""),
        file("nested/alpha.bin", b"a"),
    ];
    verify_manifest(
        DIRECTORY,
        MetadataRead::Parsed(manifest),
        &tagged("v1.2.3"),
        true,
        &written,
        &Ok(checksums),
    )
    .unwrap();
}

#[test]
fn a_manifest_says_what_each_file_holds() {
    let manifest = create_manifest(
        DIRECTORY,
        true,
        &vec![file("artifact", b"abc")],
        ReleaseIdentity::unknown(),
    )
    .unwrap();
    assert_eq!(manifest.manifest_version, 1);
    assert_eq!(manifest.artifacts[0].size, 3);
    assert_eq!(
        manifest.artifacts[0].sha256,
        "ba7816bf8f01cfea414140de5dae2223b00361a396177a9cb410ff61f20015ad"
    );
    assert_eq!(
        render_checksums(&manifest.artifacts),
        "ba7816bf8f01cfea414140de5dae2223b00361a396177a9cb410ff61f20015ad  artifact\n"
    );
}

#[test]
fn rejects_an_empty_artifact_directory() {
    let error = create_manifest(DIRECTORY, true, &Vec::new(), ReleaseIdentity::unknown())
        .unwrap_err();
    assert!(error.message().contains("contains no release artifacts"));
}

#[test]
fn rejects_a_changed_artifact() {
    let before = vec![file("artifact", b"before")];
    let manifest =
        create_manifest(DIRECTORY, true, &before, ReleaseIdentity::unknown()).unwrap();
    let checksums = render_checksums(&manifest.artifacts);

    let error = verify_manifest(
        DIRECTORY,
        MetadataRead::Parsed(manifest),
        &ReleaseIdentity::unknown(),
        true,
        &vec![file("artifact", b"after")],
        &Ok(checksums),
    )
    .unwrap_err();
    assert!(error.message().contains("does not match its metadata"));
}

#[test]
fn rejects_symlinks() {
    let entries = vec![
        file("artifact", b"data"),
        entry("link", EntryKind::Symlink, b""),
    ];

    let error =
        create_manifest(DIRECTORY, true, &entries, ReleaseIdentity::unknown()).unwrap_err();
    assert!(error.message().contains("symlink"));
}

#[test]
fn creates_then_verifies_a_release_directory() {
    let entries = vec![file("artifact.tar.gz", b"artifact")];

    let written = manifest(DIRECTORY, true, &entries, tagged("v1.0.0")).unwrap();
    assert_eq!(
        written.message,
        "wrote release manifest for 1 artifact(s) in /release"
    );
    let output = verify(
        DIRECTORY,
        MetadataRead::Parsed(written.manifest),
        &tagged("v1.0.0"),
        true,
        &entries,
        &Ok(written.checksums),
    )
    .unwrap();
    assert!(output.contains("verified release manifest"));
}

#[test]
fn a_directory_that_is_none_has_no_manifest() {
    assert!(create_manifest(DIRECTORY, false, &Vec::new(), ReleaseIdentity::unknown()).is_err());
}

#[test]
fn an_unreadable_artifact_is_a_read_failure() {
    let mut artifact = file("artifact", b"");
    artifact.contents = Err(missing());
    assert!(matches!(
        create_manifest(DIRECTORY, true, &vec![artifact], ReleaseIdentity::unknown()),
        Err(ReleaseError::Read { .. })
    ));
}

#[test]
fn metadata_that_cannot_be_used_is_refused() {
    let entries = vec![file("artifact", b"data")];
    let attempt = |metadata: MetadataRead| {
        verify_manifest(
            DIRECTORY,
            metadata,
            &ReleaseIdentity::unknown(),
            true,
            &entries,
            &Ok(String::new()),
        )
    };
    assert!(matches!(
        attempt(MetadataRead::Failed(missing())),
        Err(ReleaseError::Read { .. })
    ));
    assert!(attempt(MetadataRead::Malformed("expected value".to_owned()))
        .unwrap_err()
        .message()
        .contains("is invalid JSON: expected value"));
    let mut manifest =
        create_manifest(DIRECTORY, true, &entries, ReleaseIdentity::unknown()).unwrap();
    manifest.manifest_version = 2;
    assert!(attempt(MetadataRead::Parsed(manifest))
        .unwrap_err()
        .message()
        .contains("unsupported manifest version 2"));
}

#[test]
fn a_release_of_another_tag_is_refused() {
    assert!(compare_identity(&tagged("v1.0.0"), &tagged("v1.0.0")).is_ok());
    assert!(compare_identity(&tagged("v1.0.0"), &ReleaseIdentity::unknown()).is_ok());
    assert!(compare_identity(&tagged("v1.0.0"), &tagged("v1.0.1")).is_err());
    assert!(compare_identity(&ReleaseIdentity::unknown(), &tagged("v1.0.1")).is_err());
}

#[test]
fn checksums_are_read_back_and_verified() {
    let artifacts = vec![Artifact {
        name: "artifact".to_owned(),
        sha256: "ba7816bf8f01cfea414140de5dae2223b00361a396177a9cb410ff61f20015ad".to_owned(),
        size: 3,
    }];
    let listed = read_checksums("SHA256SUMS", &Ok(render_checksums(&artifacts))).unwrap();
    assert_eq!(listed.get("artifact"), Some(&artifacts[0].sha256));
    let probe = |contents: &[u8]| ChecksumProbe {
        kind: Ok(EntryKind::File),
        contents: Ok(contents.to_vec()),
    };
    assert_eq!(
        verify_checksums(DIRECTORY, &listed, &vec![probe(b"abc")]).unwrap(),
        1
    );
    assert!(verify_checksums(DIRECTORY, &listed, &vec![probe(b"abd")]).is_err());
}

#[test]
fn malformed_checksums_are_refused() {
    for listed in [
        "nothing",
        "abc  artifact",
        "ba7816bf8f01cfea414140de5dae2223b00361a396177a9cb410ff61f20015ad  ../escape\n",
        "",
    ] {
        assert!(
            read_checksums("SHA256SUMS", &Ok(listed.to_owned())).is_err(),
            "{listed}"
        );
    }
    assert!(matches!(
        read_checksums("SHA256SUMS", &Err(missing())),
        Err(ReleaseError::Read { .. })
    ));
}

#[test]
fn artifact_names_stay_inside_the_directory() {
    assert_eq!(relative_name("nested/alpha.bin").unwrap(), "nested/alpha.bin");
    assert!(relative_name("../alpha.bin").is_err());
    assert!(relative_name("/alpha.bin").is_err());
}

#[test]
fn a_source_is_verified_when_everything_agrees() {
    let answer = |text: &str| Ok(text.to_owned());
    assert!(verify_source("v1.0.0", "abc", answer("abc"), answer("abc")).is_ok());
    assert!(verify_source("v1.0.0", "abc", answer("abd"), answer("abc")).is_err());
    assert!(verify_source("v1.0.0", "abc", answer("abc"), answer("abd")).is_err());
    assert_eq!(
        source("v1.0.0", "abc", answer("abc"), answer("abc")).unwrap(),
        "verified release source v1.0.0 at abc"
    );
    assert!(check_source_request("", "abc").is_err());
    assert!(check_source_request("-tag", "abc").is_err());
    assert!(check_source_request("v1 0", "abc").is_err());
    assert!(check_source_request("v1.0.0", "").is_err());
}

#[test]
fn git_answers_without_blanks_around_them() {
    let args = vec!["rev-parse".to_owned(), "HEAD".to_owned()];
    let output = |success: bool, stdout: &[u8], stderr: &[u8]| GitOutput {
        success,
        code: Some(0),
        stdout: stdout.to_vec(),
        stderr: stderr.to_vec(),
    };
    assert_eq!(git(&args, Ok(output(true, b" abc\n", b""))).unwrap(), "abc");
    assert_eq!(
        git(&args, Ok(output(false, b"", b"bad \xff\n")))
            .unwrap_err()
            .message(),
        "`git rev-parse HEAD` failed: bad \u{fffd}"
    );
    assert_eq!(
        git(&args, Err(missing())).unwrap_err().message(),
        "could not run `git rev-parse HEAD`: missing"
    );
}

#[test]
fn an_added_or_removed_file_is_refused() {
    let before = vec![file("artifact", b"data"), file("other", b"more")];
    let refusal = |after: Vec<FoundEntry>, expected: &ReleaseIdentity| {
        let manifest =
            create_manifest(DIRECTORY, true, &before, ReleaseIdentity::unknown()).unwrap();
        let checksums = render_checksums(&manifest.artifacts);
        verify_manifest(
            DIRECTORY,
            MetadataRead::Parsed(manifest),
            expected,
            true,
            &after,
            &Ok(checksums),
        )
        .map(|_| ())
        .map_err(|error| error.message())
    };

    for expected in [ReleaseIdentity::unknown(), tagged("v1.0.0")] {
        assert!(refusal(vec![file("artifact", b"data")], &expected).is_err());
        assert!(refusal(
            vec![
                file("artifact", b"data"),
                file("deep/new", b""),
                file("other", b"more")
            ],
            &expected
        )
        .is_err());
    }
    let unchanged = vec![file("artifact", b"data"), file("other", b"more")];
    assert!(refusal(unchanged, &ReleaseIdentity::unknown()).is_ok());
}
