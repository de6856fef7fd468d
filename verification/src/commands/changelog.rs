//! Provider-neutral changelog commands.

use vstd::prelude::*;
use vstd::string::StringExecFns;
use vstd::utf8::{decode_utf8, valid_utf8};

use crate::changelog::date::{is_date, is_date_of};
use crate::changelog::{
    following_version, has_heading, heading_name, heading_text, is_valid_date, parse_changelog,
    parse_request, rendered, request_heading, scaffolded, today, Changelog, ChangelogView, Entry,
    EntryView, Heading, Request,
};
use crate::io::{IoError, IoErrorView};
use crate::runner::error::{signed_decimal, signed_number};
use crate::text::{
    after_last, after_last_text, chars_of, decimal, find, has_char, has_text, lines, lines_text,
    number, optional_text, parse_unsigned, replace_text, replaced, space, split, split_once,
    split_once_text, split_text, starts_with, strip_prefix, texts, trim, trim_text, unsigned_value,
};

verus! {

/// Default changelog filename used by the CLI.
pub const DEFAULT_PATH: &'static str = "CHANGELOG.md";

/// Default release-notes filename used by the CLI.
pub const DEFAULT_NOTES_PATH: &'static str = "RELEASE_NOTES.md";

pub const GIT_LOG_BYTES_MAX: usize = 10_485_760;

pub const GIT_ERROR_BYTES_MAX: usize = 65_536;

/// What can go wrong with a changelog command.
#[derive(Debug, PartialEq, Eq)]
pub enum ChangelogError {
    Read { path: String, source: IoError },
    Write { path: String, source: IoError },
    Command { command: String, source: IoError },
    CommandFailed { command: String, status: Option<i32>, stderr: String },
    Invalid(String),
}

/// What a `ChangelogError` says.
pub enum ChangelogFault {
    Read { path: Seq<char>, source: IoErrorView },
    Write { path: Seq<char>, source: IoErrorView },
    Command { command: Seq<char>, source: IoErrorView },
    CommandFailed { command: Seq<char>, status: Option<i32>, stderr: Seq<char> },
    Invalid(Seq<char>),
}

impl View for ChangelogError {
    type V = ChangelogFault;

    open spec fn view(&self) -> ChangelogFault {
        match *self {
            ChangelogError::Read { path, source } => ChangelogFault::Read {
                path: path@,
                source: source@,
            },
            ChangelogError::Write { path, source } => ChangelogFault::Write {
                path: path@,
                source: source@,
            },
            ChangelogError::Command { command, source } => ChangelogFault::Command {
                command: command@,
                source: source@,
            },
            ChangelogError::CommandFailed { command, status, stderr } =>
            ChangelogFault::CommandFailed { command: command@, status, stderr: stderr@ },
            ChangelogError::Invalid(message) => ChangelogFault::Invalid(message@),
        }
    }
}

/// The text that reports a fault.
pub open spec fn changelog_fault_text(fault: ChangelogFault) -> Seq<char> {
    match fault {
        ChangelogFault::Read { path, source } => "failed to read "@ + path + ": "@ + source.message,
        ChangelogFault::Write { path, source } => "failed to write "@ + path + ": "@
            + source.message,
        ChangelogFault::Command { command, source } => "failed to run `"@ + command + "`: "@
            + source.message,
        ChangelogFault::CommandFailed { command, status, stderr } => {
            let text = "`"@ + command + "` failed"@;
            let text = match status {
                Some(status) => text + " with exit status "@ + signed_decimal(status as int),
                None => text,
            };
            if stderr.len() > 0 {
                text + ": "@ + stderr
            } else {
                text
            }
        },
        ChangelogFault::Invalid(message) => message,
    }
}

impl ChangelogError {
    /// The text that reports the error.
    pub fn message(&self) -> (r: String)
        ensures
            r@ == changelog_fault_text(self@),
    {
        match self {
            ChangelogError::Read { path, source } => {
                let mut text = "failed to read ".to_owned();
                text.append(path.as_str());
                text.append(": ");
                text.append(source.message.as_str());
                text
            },
            ChangelogError::Write { path, source } => {
                let mut text = "failed to write ".to_owned();
                text.append(path.as_str());
                text.append(": ");
                text.append(source.message.as_str());
                text
            },
            ChangelogError::Command { command, source } => {
                let mut text = "failed to run `".to_owned();
                text.append(command.as_str());
                text.append("`: ");
                text.append(source.message.as_str());
                text
            },
            ChangelogError::CommandFailed { command, status, stderr } => {
                let mut text = "`".to_owned();
                text.append(command.as_str());
                text.append("` failed");
                if let Some(status) = status {
                    text.append(" with exit status ");
                    text.append(signed_number(*status).as_str());
                }
                if chars_of(stderr.as_str()).len() > 0 {
                    text.append(": ");
                    text.append(stderr.as_str());
                }
                text
            },
            ChangelogError::Invalid(message) => message.clone(),
        }
    }

    /// The text of the failure that this one wraps, where it wraps one.
    pub fn source(&self) -> (r: Option<String>)
        ensures
            optional_text(r) == (match self@ {
                ChangelogFault::Read { source, .. } => Some(source.message),
                ChangelogFault::Write { source, .. } => Some(source.message),
                ChangelogFault::Command { source, .. } => Some(source.message),
                _ => None,
            }),
    {
        match self {
            ChangelogError::Read { source, .. } => Some(source.message.clone()),
            ChangelogError::Write { source, .. } => Some(source.message.clone()),
            ChangelogError::Command { source, .. } => Some(source.message.clone()),
            _ => None,
        }
    }
}

/// A failure that concerns a file.
pub open spec fn invalid_at(path: Seq<char>, message: Seq<char>) -> ChangelogFault {
    ChangelogFault::Invalid(path + ": "@ + message)
}

fn invalid(path: &str, message: String) -> (r: ChangelogError)
    ensures
        r@ == invalid_at(path@, message@),
{
    let mut text = path.to_owned();
    text.append(": ");
    text.append(message.as_str());
    ChangelogError::Invalid(text)
}

/// The release target supplied by the CLI or release environment.
#[derive(Debug, Clone, Copy, PartialEq, Eq, Structural)]
pub struct ReleaseNotesTarget {
    pub version: Option<Request>,
    pub release_tag: Option<Request>,
}

/// The request that an optional text writes.
pub open spec fn optional_request(text: Option<Seq<char>>) -> Result<Option<Request>, Seq<char>> {
    match text {
        None => Ok(None),
        Some(text) => match parse_request(text) {
            Ok(request) => Ok(Some(request)),
            Err(message) => Err(message),
        },
    }
}

/// The target that a version and a release tag name, where they agree.
pub open spec fn parse_target(
    version: Option<Seq<char>>,
    release_tag: Option<Seq<char>>,
) -> Result<ReleaseNotesTarget, ChangelogFault> {
    match optional_request(version) {
        Err(message) => Err(ChangelogFault::Invalid(message)),
        Ok(version) => match optional_request(release_tag) {
            Err(message) => Err(ChangelogFault::Invalid(message)),
            Ok(release_tag) => if version is Some && release_tag is Some && version
                != release_tag {
                Err(ChangelogFault::Invalid("requested version does not match --release-tag"@))
            } else {
                Ok(ReleaseNotesTarget { version, release_tag })
            },
        },
    }
}

/// The view of an optional text.
pub open spec fn optional_str(text: Option<&str>) -> Option<Seq<char>> {
    match text {
        Some(text) => Some(text@),
        None => None,
    }
}

fn parse_optional_request(text: Option<&str>) -> (r: Result<Option<Request>, String>)
    ensures
        match r {
            Ok(request) => optional_request(optional_str(text)) == Ok::<
                Option<Request>,
                Seq<char>,
            >(request),
            Err(message) => optional_request(optional_str(text)) == Err::<
                Option<Request>,
                Seq<char>,
            >(message@),
        },
{
    match text {
        None => Ok(None),
        Some(text) => match Request::parse(text) {
            Ok(request) => Ok(Some(request)),
            Err(message) => Err(message),
        },
    }
}

impl ReleaseNotesTarget {
    pub fn parse(version: Option<&str>, release_tag: Option<&str>) -> (r: Result<
        ReleaseNotesTarget,
        ChangelogError,
    >)
        ensures
            match r {
                Ok(target) => parse_target(optional_str(version), optional_str(release_tag))
                    == Ok::<ReleaseNotesTarget, ChangelogFault>(target),
                Err(e) => parse_target(optional_str(version), optional_str(release_tag)) == Err::<
                    ReleaseNotesTarget,
                    ChangelogFault,
                >(e@),
            },
    {
        let version: Option<Request> = match parse_optional_request(version) {
            Ok(version) => version,
            Err(message) => {
                return Err(ChangelogError::Invalid(message));
            },
        };
        let release_tag: Option<Request> = match parse_optional_request(release_tag) {
            Ok(release_tag) => release_tag,
            Err(message) => {
                return Err(ChangelogError::Invalid(message));
            },
        };
        if let (Some(wanted), Some(tagged)) = (version, release_tag) {
            if wanted != tagged {
                return Err(
                    ChangelogError::Invalid(
                        "requested version does not match --release-tag".to_owned(),
                    ),
                );
            }
        }
        Ok(ReleaseNotesTarget { version, release_tag })
    }

    /// The request, where one was made.
    pub open spec fn wanted(self) -> Option<Request> {
        match self.version {
            Some(version) => Some(version),
            None => self.release_tag,
        }
    }

    /// The request, where one was made.
    pub fn requested(self) -> (r: Option<Request>)
        ensures
            r == self.wanted(),
    {
        match self.version {
            Some(version) => Some(version),
            None => self.release_tag,
        }
    }
}

/// The changelog that was read from a file.
pub open spec fn loaded(path: Seq<char>, read: Result<String, IoError>) -> Result<
    ChangelogView,
    ChangelogFault,
> {
    match read {
        Err(source) => Err(ChangelogFault::Read { path, source: source@ }),
        Ok(text) => match parse_changelog(text@) {
            Ok(changelog) => Ok(changelog),
            Err(message) => Err(invalid_at(path, message)),
        },
    }
}

fn load(path: &str, read: &Result<String, IoError>) -> (r: Result<Changelog, ChangelogError>)
    ensures
        match r {
            Ok(changelog) => loaded(path@, *read) == Ok::<ChangelogView, ChangelogFault>(
                changelog@,
            ) && changelog.wf(),
            Err(e) => loaded(path@, *read) == Err::<ChangelogView, ChangelogFault>(e@),
        },
{
    match read {
        Err(source) => Err(
            ChangelogError::Read { path: path.to_owned(), source: source.copy() },
        ),
        Ok(text) => match Changelog::parse(text.as_str()) {
            Ok(changelog) => Ok(changelog),
            Err(message) => Err(invalid(path, message)),
        },
    }
}

/// Say how many entries a valid changelog has.
pub fn validate(path: &str, read: &Result<String, IoError>) -> (r: Result<String, ChangelogError>)
    ensures
        match r {
            Ok(message) => loaded(path@, *read) matches Ok(changelog) && message@ == "validated "@
                + path@ + " ("@ + decimal(changelog.entries.len()) + " entries)"@,
            Err(e) => loaded(path@, *read) == Err::<ChangelogView, ChangelogFault>(e@),
        },
{
    let changelog = match load(path, read) {
        Ok(changelog) => changelog,
        Err(e) => {
            return Err(e);
        },
    };
    let mut message = "validated ".to_owned();
    message.append(path);
    message.append(" (");
    message.append(number(changelog.entry_count() as u128).as_str());
    message.append(" entries)");
    Ok(message)
}

/// What a command writes to a file, and what it says when it has.
#[derive(Debug, PartialEq, Eq)]
pub struct Prepared {
    pub contents: String,
    pub message: String,
}

/// What a `Prepared` says.
pub struct PreparedView {
    pub contents: Seq<char>,
    pub message: Seq<char>,
}

impl View for Prepared {
    type V = PreparedView;

    open spec fn view(&self) -> PreparedView {
        PreparedView { contents: self.contents@, message: self.message@ }
    }
}

/// The changelog to extend and the entry that is asked for.
pub open spec fn prepare_input(
    path: Seq<char>,
    read: Result<String, IoError>,
    version: Option<Seq<char>>,
    date: Seq<char>,
) -> Result<(ChangelogView, Request), ChangelogFault> {
    match loaded(path, read) {
        Err(fault) => Err(fault),
        Ok(changelog) => if !is_date(date) {
            Err(
                invalid_at(path, "invalid release date `"@ + date + "`, expected `<yyyy-mm-dd>`"@),
            )
        } else {
            match version {
                Some(version) => match parse_request(version) {
                    Ok(request) => Ok((changelog, request)),
                    Err(message) => Err(ChangelogFault::Invalid(message)),
                },
                None => match following_version(changelog) {
                    Ok(version) => Ok((changelog, Request::Version(version))),
                    Err(message) => Err(invalid_at(path, message)),
                },
            }
        },
    }
}

/// The changelog with the entry that is asked for, and the message about it.
pub open spec fn prepared_text(
    path: Seq<char>,
    changelog: ChangelogView,
    request: Request,
    date: Seq<char>,
    bullets: Seq<Seq<char>>,
) -> Result<PreparedView, ChangelogFault> {
    match scaffolded(changelog, request, date, bullets) {
        Err(message) => Err(invalid_at(path, message)),
        Ok((after, _)) => Ok(
            PreparedView {
                contents: rendered(after),
                message: "prepared "@ + heading_text(request_heading(request)) + " in "@ + path + (
                if bullets.len() == 0 {
                    Seq::empty()
                } else {
                    " ("@ + decimal(bullets.len()) + " Git changes)"@
                }) + "; edit the changelog content"@,
            },
        ),
    }
}

/// What preparing an entry comes to.
pub open spec fn prepared(
    path: Seq<char>,
    read: Result<String, IoError>,
    version: Option<Seq<char>>,
    date: Seq<char>,
    bullets: Seq<Seq<char>>,
) -> Result<PreparedView, ChangelogFault> {
    match prepare_input(path, read, version, date) {
        Err(fault) => Err(fault),
        Ok((changelog, request)) => prepared_text(path, changelog, request, date, bullets),
    }
}

/// The view of what preparing an entry came to.
pub open spec fn prepared_view(r: Result<Prepared, ChangelogError>) -> Result<
    PreparedView,
    ChangelogFault,
> {
    match r {
        Ok(done) => Ok(done@),
        Err(e) => Err(e@),
    }
}

fn load_prepare_input(
    path: &str,
    read: &Result<String, IoError>,
    version: Option<&str>,
    date: &str,
) -> (r: Result<(Changelog, Request), ChangelogError>)
    ensures
        match r {
            Ok((changelog, request)) => prepare_input(path@, *read, optional_str(version), date@)
                == Ok::<(ChangelogView, Request), ChangelogFault>((changelog@, request)),
            Err(e) => prepare_input(path@, *read, optional_str(version), date@) == Err::<
                (ChangelogView, Request),
                ChangelogFault,
            >(e@),
        },
{
    let changelog = match load(path, read) {
        Ok(changelog) => changelog,
        Err(e) => {
            return Err(e);
        },
    };
    if !is_valid_date(date) {
        let mut message = "invalid release date `".to_owned();
        message.append(date);
        message.append("`, expected `<yyyy-mm-dd>`");
        return Err(invalid(path, message));
    }
    let request: Request = match version {
        Some(version) => match Request::parse(version) {
            Ok(request) => request,
            Err(message) => {
                return Err(ChangelogError::Invalid(message));
            },
        },
        None => match changelog.next_version() {
            Ok(version) => Request::Version(version),
            Err(message) => {
                return Err(invalid(path, message));
            },
        },
    };
    Ok((changelog, request))
}

fn write_prepared(
    path: &str,
    changelog: Changelog,
    request: Request,
    date: &str,
    bullets: &Vec<String>,
) -> (r: Result<Prepared, ChangelogError>)
    ensures
        prepared_view(r) == prepared_text(path@, changelog@, request, date@, texts(bullets@)),
{
    let mut changelog = changelog;
    match changelog.scaffold(request, date, bullets) {
        Err(message) => {
            return Err(invalid(path, message));
        },
        Ok(_) => {},
    }
    let contents = changelog.render();
    let mut message = "prepared ".to_owned();
    message.append(request.heading().heading().as_str());
    message.append(" in ");
    message.append(path);
    let ghost head = message@;
    if bullets.len() > 0 {
        let mut suffix = " (".to_owned();
        suffix.append(number(bullets.len() as u128).as_str());
        suffix.append(" Git changes)");
        message.append(suffix.as_str());
    } else {
        assert(message@ =~= head + Seq::empty());
    }
    message.append("; edit the changelog content");
    Ok(Prepared { contents, message })
}

/// Prepare an entry using a caller-supplied date.
///
/// Keeping the clock outside this function makes the workflow deterministic
/// without requiring a fake clock or global state in tests.
pub fn prepare_on(
    path: &str,
    read: &Result<String, IoError>,
    version: Option<&str>,
    date: &str,
) -> (r: Result<Prepared, ChangelogError>)
    ensures
        prepared_view(r) == prepared(path@, *read, optional_str(version), date@, Seq::empty()),
{
    let (changelog, request) = match load_prepare_input(path, read, version, date) {
        Ok(input) => input,
        Err(e) => {
            return Err(e);
        },
    };
    let none: Vec<String> = Vec::new();
    assert(texts(none@) =~= Seq::empty());
    write_prepared(path, changelog, request, date, &none)
}

/// The date that is asked for, or today's, where the clock shows `now`.
pub open spec fn is_chosen_date(date: Option<Seq<char>>, now: u64, chosen: Seq<char>) -> bool {
    match date {
        Some(date) => chosen == date,
        None => is_date_of(now, chosen),
    }
}

fn chosen_date(date: Option<&str>, now: u64) -> (r: String)
    ensures
        is_chosen_date(optional_str(date), now, r@),
{
    match date {
        Some(date) => date.to_owned(),
        None => today(now),
    }
}

/// Prepare a new top entry, inferring the next patch version when omitted.
/// `now` is what the clock shows, in seconds since 1970.
pub fn prepare(
    path: &str,
    read: &Result<String, IoError>,
    version: Option<&str>,
    date: Option<&str>,
    now: u64,
) -> (r: Result<Prepared, ChangelogError>)
    ensures
        exists|chosen: Seq<char>| #[trigger]
            is_chosen_date(optional_str(date), now, chosen) && prepared_view(r) == prepared(
                path@,
                *read,
                optional_str(version),
                chosen,
                Seq::empty(),
            ),
{
    let chosen = chosen_date(date, now);
    prepare_on(path, read, version, chosen.as_str())
}

/// Scaffold an entry dated today.
pub fn scaffold(path: &str, read: &Result<String, IoError>, version: &str, now: u64) -> (r: Result<
    Prepared,
    ChangelogError,
>)
    ensures
        exists|chosen: Seq<char>| #[trigger]
            is_chosen_date(None, now, chosen) && prepared_view(r) == prepared(
                path@,
                *read,
                Some(version@),
                chosen,
                Seq::empty(),
            ),
{
    prepare(path, read, Some(version), None, now)
}

/// Scaffold an entry with an explicit date.
pub fn scaffold_on(path: &str, read: &Result<String, IoError>, version: &str, date: &str) -> (r:
    Result<Prepared, ChangelogError>)
    ensures
        prepared_view(r) == prepared(path@, *read, Some(version@), date@, Seq::empty()),
{
    prepare_on(path, read, Some(version), date)
}

/// Whether a text can name a Git revision on a command line.
pub open spec fn is_ref(reference: Seq<char>) -> bool {
    reference.len() > 0 && reference[0] != '-' && !crate::text::any(
        reference,
        |c: char| crate::text::is_space(c),
    ) && !reference.contains('\0')
}

/// The failure for a text that cannot name a Git revision.
pub open spec fn bad_ref(reference: Seq<char>) -> ChangelogFault {
    ChangelogFault::Invalid("invalid Git ref `"@ + reference + "`"@)
}

/// Accept texts that can name a Git revision.
pub fn validate_ref(reference: &str) -> (r: Result<(), ChangelogError>)
    ensures
        match r {
            Ok(_) => is_ref(reference@),
            Err(e) => !is_ref(reference@) && e@ == bad_ref(reference@),
        },
{
    let chars = chars_of(reference);
    if chars.len() == 0 || chars[0] == '-' || has_space(&chars) || has_char(reference, '\0') {
        let mut message = "invalid Git ref `".to_owned();
        message.append(reference);
        message.append("`");
        return Err(ChangelogError::Invalid(message));
    }
    Ok(())
}

#[verifier::loop_isolation(false)]
pub(crate) fn has_space(chars: &Vec<char>) -> (r: bool)
    ensures
        r == crate::text::any(chars@, |c: char| crate::text::is_space(c)),
{
    let ghost pred = |c: char| crate::text::is_space(c);
    let mut i: usize = 0;
    while i < chars.len()
        invariant
            i <= chars@.len(),
            forall|k: int| 0 <= k < i ==> !crate::text::is_space(#[trigger] chars@[k]),
        decreases chars.len() - i,
    {
        if space(chars[i]) {
            assert(pred(chars@[i as int]));
            return true;
        }
        i += 1;
    }
    false
}

/// The failure for a template without a place for the number.
pub open spec fn bad_template() -> ChangelogFault {
    ChangelogFault::Invalid("pull-request URL must contain the `{number}` placeholder"@)
}

/// Accept templates with a place for the number of a pull request.
pub fn validate_pull_request_url(template: Option<&str>) -> (r: Result<(), ChangelogError>)
    ensures
        match r {
            Ok(_) => template matches Some(template) ==> find(template@, "{number}"@) is Some,
            Err(e) => template matches Some(template) && find(template@, "{number}"@) is None
                && e@ == bad_template(),
        },
{
    if let Some(template) = template {
        if !has_text(template, "{number}") {
            return Err(
                ChangelogError::Invalid(
                    "pull-request URL must contain the `{number}` placeholder".to_owned(),
                ),
            );
        }
    }
    Ok(())
}

/// What is wrong with a request to prepare an entry from Git, but for the
/// changelog itself.
pub open spec fn git_request_problem(
    from: Seq<char>,
    to: Seq<char>,
    pull_request_url: Option<Seq<char>>,
) -> Option<ChangelogFault> {
    if !is_ref(from) {
        Some(bad_ref(from))
    } else if !is_ref(to) {
        Some(bad_ref(to))
    } else {
        match pull_request_url {
            Some(template) => if find(template, "{number}"@) is None {
                Some(bad_template())
            } else {
                None
            },
            None => None,
        }
    }
}

fn check_git_request(from: &str, to: &str, pull_request_url: Option<&str>) -> (r: Result<
    (),
    ChangelogError,
>)
    ensures
        match r {
            Ok(_) => git_request_problem(from@, to@, optional_str(pull_request_url)) is None,
            Err(e) => git_request_problem(from@, to@, optional_str(pull_request_url)) == Some(e@),
        },
{
    match validate_ref(from) {
        Err(e) => {
            return Err(e);
        },
        Ok(_) => {},
    }
    match validate_ref(to) {
        Err(e) => {
            return Err(e);
        },
        Ok(_) => {},
    }
    validate_pull_request_url(pull_request_url)
}

/// Check what can be checked before Git is asked: the changelog, the date, the
/// version, the revisions and the template.
pub fn check_prepare_from_git(
    path: &str,
    read: &Result<String, IoError>,
    version: Option<&str>,
    date: &str,
    from: &str,
    to: &str,
    pull_request_url: Option<&str>,
) -> (r: Result<(), ChangelogError>)
    ensures
        match r {
            Ok(_) => prepare_input(path@, *read, optional_str(version), date@) is Ok
                && git_request_problem(from@, to@, optional_str(pull_request_url)) is None,
            Err(e) => match prepare_input(path@, *read, optional_str(version), date@) {
                Err(fault) => e@ == fault,
                Ok(_) => git_request_problem(from@, to@, optional_str(pull_request_url)) == Some(
                    e@,
                ),
            },
        },
{
    match load_prepare_input(path, read, version, date) {
        Err(e) => {
            return Err(e);
        },
        Ok(_) => {},
    }
    check_git_request(from, to, pull_request_url)
}

/// The view of a merge log, or of the failure to get it.
pub open spec fn log_view(log: Result<String, ChangelogError>) -> Result<
    Seq<char>,
    ChangelogFault,
> {
    match log {
        Ok(text) => Ok(text@),
        Err(e) => Err(e@),
    }
}

/// What preparing an entry from a merge log comes to.
pub open spec fn prepared_from_git(
    path: Seq<char>,
    read: Result<String, IoError>,
    version: Option<Seq<char>>,
    date: Seq<char>,
    from: Seq<char>,
    to: Seq<char>,
    pull_request_url: Option<Seq<char>>,
    log: Result<Seq<char>, ChangelogFault>,
) -> Result<PreparedView, ChangelogFault> {
    match prepare_input(path, read, version, date) {
        Err(fault) => Err(fault),
        Ok((changelog, request)) => match git_request_problem(from, to, pull_request_url) {
            Some(fault) => Err(fault),
            None => match log {
                Err(fault) => Err(fault),
                Ok(log) => {
                    let bullets = git_bullets(split(log, '\u{1e}'), pull_request_url);
                    match prepared_text(path, changelog, request, date, bullets) {
                        Err(fault) => Err(fault),
                        Ok(done) => if bullets.len() == 0 {
                            Ok(
                                PreparedView {
                                    contents: done.contents,
                                    message: done.message + (
                                    "; warning: no first-parent merge commits found in "@ + from
                                        + ".."@ + to),
                                },
                            )
                        } else {
                            Ok(done)
                        },
                    }
                },
            },
        },
    }
}

/// Prepare a changelog entry with the merge log of Git supplied by the caller.
pub fn prepare_from_git_with(
    path: &str,
    read: &Result<String, IoError>,
    version: Option<&str>,
    date: &str,
    from: &str,
    to: &str,
    pull_request_url: Option<&str>,
    log: Result<String, ChangelogError>,
) -> (r: Result<Prepared, ChangelogError>)
    ensures
        prepared_view(r) == prepared_from_git(
            path@,
            *read,
            optional_str(version),
            date@,
            from@,
            to@,
            optional_str(pull_request_url),
            log_view(log),
        ),
{
    let (changelog, request) = match load_prepare_input(path, read, version, date) {
        Ok(input) => input,
        Err(e) => {
            return Err(e);
        },
    };
    match check_git_request(from, to, pull_request_url) {
        Err(e) => {
            return Err(e);
        },
        Ok(_) => {},
    }
    let log = match log {
        Ok(log) => log,
        Err(e) => {
            return Err(e);
        },
    };
    let bullets = format_git_bullets(log.as_str(), pull_request_url);
    let done = match write_prepared(path, changelog, request, date, &bullets) {
        Ok(done) => done,
        Err(e) => {
            return Err(e);
        },
    };
    if bullets.len() > 0 {
        return Ok(done);
    }
    let mut warning = "; warning: no first-parent merge commits found in ".to_owned();
    warning.append(from);
    warning.append("..");
    warning.append(to);
    let mut message = done.message;
    message.append(warning.as_str());
    Ok(Prepared { contents: done.contents, message })
}

/// Prepare a new top entry from first-parent merge commits in an explicit ref
/// range, dated as asked or today.
pub fn prepare_from_git(
    path: &str,
    read: &Result<String, IoError>,
    version: Option<&str>,
    date: Option<&str>,
    now: u64,
    from: &str,
    to: &str,
    pull_request_url: Option<&str>,
    log: Result<String, ChangelogError>,
) -> (r: Result<Prepared, ChangelogError>)
    ensures
        exists|chosen: Seq<char>| #[trigger]
            is_chosen_date(optional_str(date), now, chosen) && prepared_view(r)
                == prepared_from_git(
                path@,
                *read,
                optional_str(version),
                chosen,
                from@,
                to@,
                optional_str(pull_request_url),
                log_view(log),
            ),
{
    let chosen = chosen_date(date, now);
    prepare_from_git_with(
        path,
        read,
        version,
        chosen.as_str(),
        from,
        to,
        pull_request_url,
        log,
    )
}

/// The text of bytes, with a mark in place of what is not UTF-8.
pub uninterp spec fn lossy(bytes: Seq<u8>) -> Seq<char>;

/// `String::from_utf8_lossy` of the standard library: a function of the bytes
/// alone, which leaves valid UTF-8 as it is. Where its marks stand in other
/// bytes is left to the standard library.
#[verifier::external_body]
pub(crate) fn lossy_text(bytes: &Vec<u8>) -> (r: String)
    ensures
        r@ == lossy(bytes@),
        valid_utf8(bytes@) ==> r@ == decode_utf8(bytes@),
{
    String::from_utf8_lossy(bytes.as_slice()).into_owned()
}

/// The beginning of some bytes as text, marked where the end is missing.
pub open spec fn bounded(bytes: Seq<u8>, limit: nat) -> Seq<char> {
    if bytes.len() > limit {
        trim(lossy(bytes.take(limit as int))).push('\u{2026}')
    } else {
        trim(lossy(bytes))
    }
}

/// The beginning of some bytes as text, marked where the end is missing.
pub fn bounded_text(bytes: &Vec<u8>, limit: usize) -> (r: String)
    ensures
        r@ == bounded(bytes@, limit as nat),
{
    if bytes.len() > limit {
        let mut start: Vec<u8> = Vec::new();
        let mut i: usize = 0;
        while i < limit
            invariant
                i <= limit < bytes@.len(),
                start@ == bytes@.take(i as int),
            decreases limit - i,
        {
            start.push(bytes[i]);
            i += 1;
            assert(start@ =~= bytes@.take(i as int));
        }
        let mut text = trim_text(lossy_text(&start).as_str());
        text.push('\u{2026}');
        text
    } else {
        trim_text(lossy_text(bytes).as_str())
    }
}

/// What came of running Git.
#[derive(Debug, PartialEq, Eq)]
pub struct GitOutput {
    pub success: bool,
    pub code: Option<i32>,
    pub stdout: Vec<u8>,
    pub stderr: Vec<u8>,
}

/// The command whose failure is reported.
pub open spec fn git_command(from: Seq<char>, to: Seq<char>) -> Seq<char> {
    "git log --merges --first-parent "@ + (from + ".."@ + to)
}

/// The merge log that a run of Git printed.
pub open spec fn merge_log(
    from: Seq<char>,
    to: Seq<char>,
    output: Result<GitOutput, IoError>,
) -> Result<Seq<char>, ChangelogFault> {
    match output {
        Err(source) => Err(
            ChangelogFault::Command { command: git_command(from, to), source: source@ },
        ),
        Ok(output) => if !output.success {
            Err(
                ChangelogFault::CommandFailed {
                    command: git_command(from, to),
                    status: output.code,
                    stderr: bounded(output.stderr@, GIT_ERROR_BYTES_MAX as nat),
                },
            )
        } else if output.stdout@.len() > GIT_LOG_BYTES_MAX {
            Err(ChangelogFault::Invalid("Git merge log exceeds the 10 MiB safety limit"@))
        } else {
            Ok(lossy(output.stdout@))
        },
    }
}

/// The revision range that Git is asked about.
pub fn git_range(from: &str, to: &str) -> (r: String)
    ensures
        r@ == from@ + ".."@ + to@,
{
    let mut range = from.to_owned();
    range.append("..");
    range.append(to);
    range
}

/// The merge log that a run of Git printed.
pub fn git_merge_log(from: &str, to: &str, output: Result<GitOutput, IoError>) -> (r: Result<
    String,
    ChangelogError,
>)
    ensures
        log_view(r) == merge_log(from@, to@, output),
{
    let mut command = "git log --merges --first-parent ".to_owned();
    command.append(git_range(from, to).as_str());
    let output = match output {
        Err(source) => {
            return Err(ChangelogError::Command { command, source });
        },
        Ok(output) => output,
    };
    if !output.success {
        return Err(
            ChangelogError::CommandFailed {
                command,
                status: output.code,
                stderr: bounded_text(&output.stderr, GIT_ERROR_BYTES_MAX),
            },
        );
    }
    if output.stdout.len() > GIT_LOG_BYTES_MAX {
        return Err(
            ChangelogError::Invalid("Git merge log exceeds the 10 MiB safety limit".to_owned()),
        );
    }
    Ok(lossy_text(&output.stdout))
}

/// The number and the branch of a pull request that a subject names.
pub open spec fn pull_request_of(subject: Seq<char>) -> Option<(u64, Seq<char>)> {
    if !"Merge pull request #"@.is_prefix_of(subject) {
        None
    } else {
        match split_once(subject.skip("Merge pull request #"@.len() as int), " from "@) {
            None => None,
            Some((number, branch)) => match unsigned_value(number) {
                Some(number) => Some((number, branch)),
                None => None,
            },
        }
    }
}

/// The first of some lines that says something, without the blanks around it.
pub open spec fn first_trimmed(all: Seq<Seq<char>>) -> Option<Seq<char>>
    decreases all.len(),
{
    if all.len() == 0 {
        None
    } else if trim(all[0]).len() > 0 {
        Some(trim(all[0]))
    } else {
        first_trimmed(all.drop_first())
    }
}

/// The bullet of one merge: what its body says first, or the branch, or its
/// subject, behind a reference to the pull request.
pub open spec fn record_bullet(record: Seq<char>, pull_request_url: Option<Seq<char>>) -> Seq<
    char,
> {
    let (subject, body) = match split_once(record, "\u{1f}"@) {
        Some((subject, body)) => (trim(subject), body),
        None => (trim(record), ""@),
    };
    let pull_request = pull_request_of(subject);
    let summary = match first_trimmed(lines(body)) {
        Some(line) => line,
        None => match pull_request {
            Some((_, branch)) => after_last(branch, '/'),
            None => subject,
        },
    };
    match pull_request {
        Some((number, _)) => {
            let reference = match pull_request_url {
                Some(template) => "[#"@ + decimal(number as nat) + "]("@ + replaced(
                    template,
                    "{number}"@,
                    decimal(number as nat),
                ) + ")"@,
                None => "#"@ + decimal(number as nat),
            };
            "- "@ + reference + "\n\n  "@ + summary
        },
        None => "- "@ + summary,
    }
}

/// The bullets of the records that say something.
pub open spec fn git_bullets(
    records: Seq<Seq<char>>,
    pull_request_url: Option<Seq<char>>,
) -> Seq<Seq<char>>
    decreases records.len(),
{
    if records.len() == 0 {
        Seq::empty()
    } else {
        let rest = git_bullets(records.drop_last(), pull_request_url);
        let record = trim(records.last());
        if record.len() == 0 {
            rest
        } else {
            rest.push(record_bullet(record, pull_request_url))
        }
    }
}

fn pull_request(subject: &str) -> (r: Option<(u64, String)>)
    ensures
        pull_request_of(subject@) == (match r {
            Some((number, branch)) => Some((number, branch@)),
            None => None,
        }),
{
    match strip_prefix(subject, "Merge pull request #") {
        None => None,
        Some(rest) => match split_once_text(rest.as_str(), " from ") {
            None => None,
            Some((number, branch)) => match parse_unsigned(number.as_str()) {
                Some(number) => Some((number, branch)),
                None => None,
            },
        },
    }
}

fn first_trimmed_line(all: &Vec<String>) -> (r: Option<String>)
    ensures
        optional_text(r) == first_trimmed(texts(all@)),
{
    let ghost every = texts(all@);
    let mut i: usize = 0;
    assert(every.skip(0) =~= every);
    while i < all.len()
        invariant
            i <= all@.len(),
            every == texts(all@),
            first_trimmed(every) == first_trimmed(every.skip(i as int)),
        decreases all.len() - i,
    {
        let ghost left = every.skip(i as int);
        assert(left[0] == all[i as int]@);
        assert(left.drop_first() =~= every.skip(i as int + 1));
        let trimmed = trim_text(all[i].as_str());
        if chars_of(trimmed.as_str()).len() > 0 {
            return Some(trimmed);
        }
        i += 1;
    }
    None
}

fn format_record(record: &str, pull_request_url: Option<&str>) -> (r: String)
    ensures
        r@ == record_bullet(record@, optional_str(pull_request_url)),
{
    let (subject, body) = match split_once_text(record, "\u{1f}") {
        Some((subject, body)) => (trim_text(subject.as_str()), body),
        None => (trim_text(record), "".to_owned()),
    };
    let request = pull_request(subject.as_str());
    let summary = match first_trimmed_line(&lines_text(body.as_str())) {
        Some(line) => line,
        None => match &request {
            Some(named) => after_last_text(named.1.as_str(), '/'),
            None => subject.clone(),
        },
    };
    match &request {
        Some(named) => {
            let digits = number(named.0 as u128);
            let reference = match pull_request_url {
                Some(template) => {
                    proof {
                        reveal_strlit("{number}");
                    }
                    let mut link = "[#".to_owned();
                    link.append(digits.as_str());
                    link.append("](");
                    link.append(replace_text(template, "{number}", digits.as_str()).as_str());
                    link.append(")");
                    link
                },
                None => {
                    let mut plain = "#".to_owned();
                    plain.append(digits.as_str());
                    plain
                },
            };
            let mut bullet = "- ".to_owned();
            bullet.append(reference.as_str());
            bullet.append("\n\n  ");
            bullet.append(summary.as_str());
            bullet
        },
        None => {
            let mut bullet = "- ".to_owned();
            bullet.append(summary.as_str());
            bullet
        },
    }
}

/// The bullets of a merge log.
pub fn format_git_bullets(log: &str, pull_request_url: Option<&str>) -> (r: Vec<String>)
    ensures
        texts(r@) == git_bullets(split(log@, '\u{1e}'), optional_str(pull_request_url)),
{
    let records = split_text(log, '\u{1e}');
    let ghost all = texts(records@);
    let mut bullets: Vec<String> = Vec::new();
    assert(texts(bullets@) =~= Seq::<Seq<char>>::empty());
    let mut i: usize = 0;
    while i < records.len()
        invariant
            i <= records@.len(),
            all == texts(records@),
            texts(bullets@) == git_bullets(all.take(i as int), optional_str(pull_request_url)),
        decreases records.len() - i,
    {
        let ghost next = all.take(i as int + 1);
        let ghost before = texts(bullets@);
        assert(next.drop_last() =~= all.take(i as int));
        assert(next.last() == records[i as int]@);
        let record = trim_text(records[i].as_str());
        if chars_of(record.as_str()).len() > 0 {
            let bullet = format_record(record.as_str(), pull_request_url);
            bullets.push(bullet);
            assert(texts(bullets@) =~= before.push(bullet@));
        }
        i += 1;
    }
    assert(all.take(i as int) =~= all);
    bullets
}

/// What an entry says, unless it says no more than when it was released.
pub open spec fn substantive(body: Seq<char>) -> Option<Seq<char>> {
    let trimmed = trim(body);
    let all = lines(trimmed);
    if all.len() == 0 {
        None
    } else if "Released: "@.is_prefix_of(all[0]) && first_trimmed(all.drop_first()) is None {
        None
    } else {
        Some(trimmed)
    }
}

fn substantive_body(entry: &Entry) -> (r: Option<String>)
    ensures
        optional_text(r) == substantive(entry.body@),
{
    let body = trim_text(entry.body.as_str());
    let mut all = lines_text(body.as_str());
    let ghost every = texts(all@);
    assert(all@.len() == every.len());
    if all.len() == 0 {
        return None;
    }
    let first = all.remove(0);
    assert(every[0] == first@);
    assert(texts(all@) =~= every.drop_first());
    if starts_with(first.as_str(), "Released: ") && first_trimmed_line(&all).is_none() {
        return None;
    }
    Some(body)
}

/// The notes of the entry with the given heading.
pub open spec fn notes_of(entries: Seq<EntryView>, heading: Heading) -> Result<
    Seq<char>,
    Seq<char>,
>
    decreases entries.len(),
{
    if entries.len() == 0 {
        Err("entry `"@ + heading_text(heading) + "` was not found"@)
    } else if entries[0].heading == heading {
        match substantive(entries[0].body) {
            None => Err(
                "entry `"@ + heading_text(heading)
                    + "` is empty or contains only its `Released:` line"@,
            ),
            Some(body) => Ok(
                "# "@ + heading_name(heading) + "\n\n## Changelog\n\n"@ + body + "\n"@,
            ),
        }
    } else {
        notes_of(entries.drop_first(), heading)
    }
}

proof fn lemma_notes_of(entries: Seq<EntryView>, heading: Heading, i: int)
    requires
        0 <= i <= entries.len(),
        forall|j: int| 0 <= j < i ==> (#[trigger] entries[j]).heading != heading,
    ensures
        notes_of(entries, heading) == notes_of(entries.skip(i), heading),
    decreases i,
{
    if i == 0 {
        assert(entries.skip(0) =~= entries);
    } else {
        assert(entries[0].heading != heading);
        let rest = entries.drop_first();
        assert forall|j: int| 0 <= j < i - 1 implies (#[trigger] rest[j]).heading != heading by {
            assert(rest[j] == entries[j + 1]);
        }
        lemma_notes_of(rest, heading, i - 1);
        assert(rest.skip(i - 1) =~= entries.skip(i));
    }
}

/// The notes of the requested entry.
pub fn render_notes(changelog: &Changelog, request: Request) -> (r: Result<String, String>)
    ensures
        notes_of(changelog@.entries, request_heading(request)) == (match r {
            Ok(notes) => Ok::<Seq<char>, Seq<char>>(notes@),
            Err(message) => Err(message@),
        }),
{
    let heading = request.heading();
    let ghost all = changelog@.entries;
    let entry = match changelog.entry(heading) {
        Some(entry) => entry,
        None => {
            proof {
                assert forall|j: int| 0 <= j < all.len() implies (#[trigger] all[j]).heading
                    != heading by {
                    if all[j].heading == heading {
                        assert(has_heading(all, heading));
                    }
                }
                lemma_notes_of(all, heading, all.len() as int);
                assert(all.skip(all.len() as int).len() == 0);
            }
            let mut message = "entry `".to_owned();
            message.append(heading.heading().as_str());
            message.append("` was not found");
            return Err(message);
        },
    };
    proof {
        let i = choose|i: int|
            0 <= i < changelog.entries@.len() && *entry == #[trigger] changelog.entries@[i]
                && entry.heading == heading && forall|j: int|
                0 <= j < i ==> (#[trigger] changelog.entries@[j]).heading != heading;
        assert forall|j: int| 0 <= j < i implies (#[trigger] all[j]).heading != heading by {
            assert(all[j] == changelog.entries@[j]@);
        }
        lemma_notes_of(all, heading, i);
        assert(all.skip(i)[0] == entry@);
    }
    match substantive_body(entry) {
        None => {
            let mut message = "entry `".to_owned();
            message.append(heading.heading().as_str());
            message.append("` is empty or contains only its `Released:` line");
            Err(message)
        },
        Some(body) => {
            let mut notes = "# ".to_owned();
            notes.append(heading.name().as_str());
            notes.append("\n\n## Changelog\n\n");
            notes.append(body.as_str());
            notes.append("\n");
            Ok(notes)
        },
    }
}

/// The notes of an entry, and the message about them.
pub open spec fn written_notes(
    changelog_path: Seq<char>,
    changelog: ChangelogView,
    request: Request,
    output_path: Seq<char>,
) -> Result<PreparedView, ChangelogFault> {
    match notes_of(changelog.entries, request_heading(request)) {
        Err(message) => Err(invalid_at(changelog_path, message)),
        Ok(notes) => Ok(PreparedView { contents: notes, message: "wrote "@ + output_path }),
    }
}

fn finish_notes(
    changelog_path: &str,
    changelog: &Changelog,
    request: Request,
    output_path: &str,
) -> (r: Result<Prepared, ChangelogError>)
    ensures
        prepared_view(r) == written_notes(changelog_path@, changelog@, request, output_path@),
{
    match render_notes(changelog, request) {
        Err(message) => Err(invalid(changelog_path, message)),
        Ok(contents) => {
            let mut message = "wrote ".to_owned();
            message.append(output_path);
            Ok(Prepared { contents, message })
        },
    }
}

/// Extract the requested entry without imposing the top-entry release contract.
///
/// This remains useful for historical notes. Release workflows should use
/// [`release_notes`] instead.
pub fn notes(
    changelog_path: &str,
    read: &Result<String, IoError>,
    version: &str,
    output_path: &str,
) -> (r: Result<Prepared, ChangelogError>)
    ensures
        prepared_view(r) == (match parse_request(version@) {
            Err(message) => Err::<PreparedView, ChangelogFault>(ChangelogFault::Invalid(message)),
            Ok(request) => match loaded(changelog_path@, *read) {
                Err(fault) => Err(fault),
                Ok(changelog) => written_notes(
                    changelog_path@,
                    changelog,
                    request,
                    output_path@,
                ),
            },
        }),
{
    let request = match Request::parse(version) {
        Ok(request) => request,
        Err(message) => {
            return Err(ChangelogError::Invalid(message));
        },
    };
    let changelog = match load(changelog_path, read) {
        Ok(changelog) => changelog,
        Err(e) => {
            return Err(e);
        },
    };
    finish_notes(changelog_path, &changelog, request, output_path)
}

/// The notes of a release: of the newest entry, which has to be the one that
/// is asked for.
pub open spec fn release_notes_of(
    changelog_path: Seq<char>,
    changelog: ChangelogView,
    target: ReleaseNotesTarget,
    output_path: Seq<char>,
) -> Result<PreparedView, ChangelogFault> {
    match changelog.entries[0].heading {
        Heading::Unreleased => Err(
            invalid_at(
                changelog_path,
                "the newest entry is `(unreleased)`; promote it before releasing"@,
            ),
        ),
        Heading::Version(version) => {
            let top = Heading::Version(version);
            let request = match target.wanted() {
                Some(request) => request,
                None => Request::Version(version),
            };
            if request_heading(request) != top {
                Err(
                    invalid_at(
                        changelog_path,
                        "release version `"@ + heading_text(request_heading(request))
                            + "` must match the newest changelog entry `"@ + heading_text(top)
                            + "`"@,
                    ),
                )
            } else {
                written_notes(changelog_path, changelog, request, output_path)
            }
        },
    }
}

/// Extract release notes from the newest entry and enforce tag agreement.
pub fn release_notes(
    changelog_path: &str,
    read: &Result<String, IoError>,
    target: ReleaseNotesTarget,
    output_path: &str,
) -> (r: Result<Prepared, ChangelogError>)
    ensures
        prepared_view(r) == (match loaded(changelog_path@, *read) {
            Err(fault) => Err::<PreparedView, ChangelogFault>(fault),
            Ok(changelog) => release_notes_of(changelog_path@, changelog, target, output_path@),
        }),
{
    let changelog = match load(changelog_path, read) {
        Ok(changelog) => changelog,
        Err(e) => {
            return Err(e);
        },
    };
    let top = changelog.top().heading;
    assert(changelog@.entries[0] == changelog.entries@[0]@);
    let version = match top {
        Heading::Unreleased => {
            return Err(
                invalid(
                    changelog_path,
                    "the newest entry is `(unreleased)`; promote it before releasing".to_owned(),
                ),
            );
        },
        Heading::Version(version) => version,
    };
    let request: Request = match target.requested() {
        Some(request) => request,
        None => Request::Version(version),
    };
    if request.heading() != top {
        let mut message = "release version `".to_owned();
        message.append(request.heading().heading().as_str());
        message.append("` must match the newest changelog entry `");
        message.append(top.heading().as_str());
        message.append("`");
        return Err(invalid(changelog_path, message));
    }
    finish_notes(changelog_path, &changelog, request, output_path)
}

/// The failure to write a file.
pub fn write_failure(path: &str, source: IoError) -> (r: ChangelogError)
    ensures
        r@ == (ChangelogFault::Write { path: path@, source: source@ }),
{
    ChangelogError::Write { path: path.to_owned(), source }
}

/// Releases come from the newest entry: notes are written only for the entry
/// that stands on top of the changelog.
pub proof fn law_release_notes_are_of_the_newest_entry(
    changelog_path: Seq<char>,
    changelog: ChangelogView,
    target: ReleaseNotesTarget,
    output_path: Seq<char>,
)
    requires
        changelog.entries.len() > 0,
        release_notes_of(changelog_path, changelog, target, output_path) is Ok,
    ensures
        changelog.entries[0].heading is Version,
        target.wanted() matches Some(request) ==> request_heading(request)
            == changelog.entries[0].heading,
        substantive(changelog.entries[0].body) matches Some(body) && (release_notes_of(
            changelog_path,
            changelog,
            target,
            output_path,
        )->Ok_0).contents == "# "@ + heading_name(changelog.entries[0].heading)
            + "\n\n## Changelog\n\n"@ + body + "\n"@,
{
}

} // verus!
