//! A strict, provider-neutral changelog model.
//!
//! This module deliberately knows nothing about Git, GitHub, package managers,
//! or release publication. It parses and renders a structured changelog file;
//! callers may supply bullets gathered by any provider-specific adapter.

use vstd::prelude::*;
use vstd::string::StringExecFns;

use crate::text::{
    all_digits, chars_of, concat, decimal, decimal_value, join, lines, lines_text,
    number, only_digits, parse_number, same, split, split_lines, split_lines_text, split_text,
    starts_with, strip_prefix, text_of, texts, trim, trim_text,
};

pub mod date;
pub mod promises;

pub use crate::changelog::date::{is_valid_date, today};
use crate::changelog::date::is_date;

verus! {

/// A strict `major.minor.patch` version.
#[derive(Debug, Clone, Copy, PartialEq, Eq, Structural)]
pub struct Version {
    pub major: u64,
    pub minor: u64,
    pub patch: u64,
}

/// The number that a version component writes: digits, without leading zeros.
pub open spec fn component_value(text: Seq<char>) -> Option<u64> {
    if text.len() == 0 || (text.len() > 1 && text[0] == '0') || !all_digits(text)
        || decimal_value(text) > u64::MAX {
        None
    } else {
        Some(decimal_value(text) as u64)
    }
}

/// The version that a text writes.
pub open spec fn parse_version(text: Seq<char>) -> Option<Version> {
    let parts = split(text, '.');
    if parts.len() != 3 {
        None
    } else {
        match (component_value(parts[0]), component_value(parts[1]), component_value(parts[2])) {
            (Some(major), Some(minor), Some(patch)) => Some(Version { major, minor, patch }),
            _ => None,
        }
    }
}

/// A version as text.
pub open spec fn version_text(version: Version) -> Seq<char> {
    decimal(version.major as nat) + "."@ + decimal(version.minor as nat) + "."@ + decimal(
        version.patch as nat,
    )
}

/// Whether one version is older than another.
pub open spec fn version_lt(a: Version, b: Version) -> bool {
    a.major < b.major || (a.major == b.major && (a.minor < b.minor || (a.minor == b.minor && a.patch
        < b.patch)))
}

fn parse_component(text: &str) -> (r: Option<u64>)
    ensures
        r == component_value(text@),
{
    let chars = chars_of(text);
    if chars.len() == 0 || (chars.len() > 1 && chars[0] == '0') {
        return None;
    }
    if !only_digits(text) {
        return None;
    }
    parse_number(text)
}

impl Version {
    pub fn parse(text: &str) -> (r: Option<Version>)
        ensures
            r == parse_version(text@),
    {
        let parts = split_text(text, '.');
        let ghost all = split(text@, '.');
        assert(parts@.len() == all.len());
        if parts.len() != 3 {
            return None;
        }
        assert(all[0] == parts[0]@ && all[1] == parts[1]@ && all[2] == parts[2]@);
        let major = parse_component(parts[0].as_str());
        let minor = parse_component(parts[1].as_str());
        let patch = parse_component(parts[2].as_str());
        match (major, minor, patch) {
            (Some(major), Some(minor), Some(patch)) => Some(Version { major, minor, patch }),
            _ => None,
        }
    }

    /// The version with the next patch number, where there is one.
    pub fn next_patch(self) -> (r: Option<Version>)
        ensures
            match r {
                Some(next) => self.patch < u64::MAX && next == (Version {
                    major: self.major,
                    minor: self.minor,
                    patch: (self.patch + 1) as u64,
                }),
                None => self.patch == u64::MAX,
            },
    {
        if self.patch == u64::MAX {
            return None;
        }
        Some(Version { major: self.major, minor: self.minor, patch: self.patch + 1 })
    }

    /// The version as text.
    pub fn text(&self) -> (r: String)
        ensures
            r@ == version_text(*self),
    {
        let mut text = number(self.major as u128);
        text.append(".");
        text.append(number(self.minor as u128).as_str());
        text.append(".");
        text.append(number(self.patch as u128).as_str());
        text
    }

    fn older_than(&self, other: &Version) -> (r: bool)
        ensures
            r == version_lt(*self, *other),
    {
        self.major < other.major || (self.major == other.major && (self.minor < other.minor || (
        self.minor == other.minor && self.patch < other.patch)))
    }
}

proof fn lemma_no_dot(digits: Seq<char>)
    requires
        all_digits(digits),
    ensures
        !digits.contains('.'),
{
    if digits.contains('.') {
        let i = choose|i: int| 0 <= i < digits.len() && digits[i] == '.';
        assert(crate::text::is_digit(digits[i]));
    }
}

/// Reading a written version gives back the version.
pub proof fn law_version_round_trip(version: Version)
    ensures
        parse_version(version_text(version)) == Some(version),
{
    let parts = seq![
        decimal(version.major as nat),
        decimal(version.minor as nat),
        decimal(version.patch as nat),
    ];
    crate::text::law_decimal_round_trip(version.major as nat);
    crate::text::law_decimal_round_trip(version.minor as nat);
    crate::text::law_decimal_round_trip(version.patch as nat);
    lemma_no_dot(parts[0]);
    lemma_no_dot(parts[1]);
    lemma_no_dot(parts[2]);
    crate::text::law_join_split(parts, '.');
    lemma_join_three(parts);
}

proof fn lemma_join_three(parts: Seq<Seq<char>>)
    requires
        parts.len() == 3,
    ensures
        join(parts, seq!['.']) == parts[0] + "."@ + parts[1] + "."@ + parts[2],
{
    reveal_strlit(".");
    reveal_with_fuel(join, 4);
    assert("."@ =~= seq!['.']);
    assert(parts.drop_last().drop_last() =~= seq![parts[0]]);
    assert(join(parts, seq!['.']) =~= parts[0] + "."@ + parts[1] + "."@ + parts[2]);
}

/// Versions are strict: a text that is read as a version is the one that
/// would be written for it.
pub proof fn law_versions_are_strict(text: Seq<char>)
    requires
        parse_version(text) is Some,
    ensures
        version_text(parse_version(text)->0) == text,
{
    let parts = split(text, '.');
    crate::text::law_split_join(text, '.');
    crate::text::law_numeral_round_trip(parts[0]);
    crate::text::law_numeral_round_trip(parts[1]);
    crate::text::law_numeral_round_trip(parts[2]);
    lemma_join_three(parts);
}

/// A changelog entry heading.
#[derive(Debug, Clone, Copy, PartialEq, Eq, Structural)]
pub enum Heading {
    Version(Version),
    Unreleased,
}

/// What a heading says behind its marks.
pub open spec fn heading_name(heading: Heading) -> Seq<char> {
    match heading {
        Heading::Version(version) => version_text(version),
        Heading::Unreleased => "(unreleased)"@,
    }
}

/// A heading as it is written.
pub open spec fn heading_text(heading: Heading) -> Seq<char> {
    "## "@ + heading_name(heading)
}

/// The heading that a text writes.
pub open spec fn parse_heading(text: Seq<char>) -> Option<Heading> {
    if text == "(unreleased)"@ {
        Some(Heading::Unreleased)
    } else {
        match parse_version(text) {
            Some(version) => Some(Heading::Version(version)),
            None => None,
        }
    }
}

impl Heading {
    pub fn parse(text: &str) -> (r: Option<Heading>)
        ensures
            r == parse_heading(text@),
    {
        if same(text, "(unreleased)") {
            return Some(Heading::Unreleased);
        }
        match Version::parse(text) {
            Some(version) => Some(Heading::Version(version)),
            None => None,
        }
    }

    /// What the heading says behind its marks.
    pub fn name(&self) -> (r: String)
        ensures
            r@ == heading_name(*self),
    {
        match self {
            Heading::Version(version) => version.text(),
            Heading::Unreleased => "(unreleased)".to_owned(),
        }
    }

    pub fn heading(&self) -> (r: String)
        ensures
            r@ == heading_text(*self),
    {
        let mut text = "## ".to_owned();
        text.append(self.name().as_str());
        text
    }
}

/// One changelog entry.
#[derive(Debug, PartialEq, Eq)]
pub struct Entry {
    pub heading: Heading,
    pub body: String,
}

/// What an `Entry` says.
pub struct EntryView {
    pub heading: Heading,
    pub body: Seq<char>,
}

impl View for Entry {
    type V = EntryView;

    open spec fn view(&self) -> EntryView {
        EntryView { heading: self.heading, body: self.body@ }
    }
}

/// A requested version, or an unreleased entry.
#[derive(Debug, Clone, Copy, PartialEq, Eq, Structural)]
pub enum Request {
    Version(Version),
    Unreleased,
}

/// `text` without a leading `v`.
pub open spec fn without_v(text: Seq<char>) -> Seq<char> {
    if text.len() > 0 && text[0] == 'v' {
        text.skip(1)
    } else {
        text
    }
}

/// The request that a text writes.
pub open spec fn parse_request(text: Seq<char>) -> Result<Request, Seq<char>> {
    let trimmed = trim(text);
    let version = without_v(trimmed);
    if version == "unreleased"@ {
        Ok(Request::Unreleased)
    } else {
        match parse_version(version) {
            Some(version) => Ok(Request::Version(version)),
            None => Err(
                "`"@ + trimmed + "` is not `<major>.<minor>.<patch>` or `unreleased`"@,
            ),
        }
    }
}

/// The heading of the entry that is asked for.
pub open spec fn request_heading(request: Request) -> Heading {
    match request {
        Request::Version(version) => Heading::Version(version),
        Request::Unreleased => Heading::Unreleased,
    }
}

impl Request {
    pub fn parse(text: &str) -> (r: Result<Request, String>)
        ensures
            match r {
                Ok(request) => parse_request(text@) == Ok::<Request, Seq<char>>(request),
                Err(message) => parse_request(text@) == Err::<Request, Seq<char>>(message@),
            },
    {
        let trimmed = trim_text(text);
        let chars = chars_of(trimmed.as_str());
        let from: usize = if chars.len() > 0 && chars[0] == 'v' {
            1
        } else {
            0
        };
        let version = text_of(&chars, from, chars.len());
        assert(version@ =~= without_v(trim(text@)));
        if same(version.as_str(), "unreleased") {
            return Ok(Request::Unreleased);
        }
        match Version::parse(version.as_str()) {
            Some(version) => Ok(Request::Version(version)),
            None => {
                let mut message = "`".to_owned();
                message.append(trimmed.as_str());
                message.append("` is not `<major>.<minor>.<patch>` or `unreleased`");
                Err(message)
            },
        }
    }

    pub fn heading(self) -> (r: Heading)
        ensures
            r == request_heading(self),
    {
        match self {
            Request::Version(version) => Heading::Version(version),
            Request::Unreleased => Heading::Unreleased,
        }
    }
}

/// The mutation performed by [`Changelog::scaffold`].
#[derive(Debug, Clone, Copy, PartialEq, Eq, Structural)]
pub enum Action {
    Inserted,
    Renamed { from: Heading, to: Heading },
}

/// A parsed changelog, with entries ordered newest first.
#[derive(Debug, PartialEq, Eq)]
pub struct Changelog {
    pub preamble: String,
    pub entries: Vec<Entry>,
}

/// What a `Changelog` says.
pub struct ChangelogView {
    pub preamble: Seq<char>,
    pub entries: Seq<EntryView>,
}

/// What a list of entries says.
pub open spec fn entry_views(entries: Seq<Entry>) -> Seq<EntryView> {
    entries.map_values(|e: Entry| e@)
}

impl View for Changelog {
    type V = ChangelogView;

    open spec fn view(&self) -> ChangelogView {
        ChangelogView { preamble: self.preamble@, entries: entry_views(self.entries@) }
    }
}

/// `text` without the line ends behind it.
pub open spec fn trim_line_ends(text: Seq<char>) -> Seq<char>
    decreases text.len(),
{
    if text.len() > 0 && (text.last() == '\n' || text.last() == '\r') {
        trim_line_ends(text.drop_last())
    } else {
        text
    }
}

/// The failure for a heading that cannot be read.
pub open spec fn unrecognized_heading(text: Seq<char>) -> Seq<char> {
    "unrecognized entry heading `## "@ + text
        + "`, expected `## <major>.<minor>.<patch>` or `## (unreleased)`"@
}

/// Whether a line starts an entry.
pub open spec fn is_heading_line(line: Seq<char>) -> bool {
    "## "@.is_prefix_of(line)
}

/// The heading of a line that starts an entry, as text.
pub open spec fn line_heading(line: Seq<char>) -> Seq<char> {
    trim_line_ends(line.skip("## "@.len() as int))
}

/// What a list of lines says: what stands before the first entry, and the
/// entries.
pub open spec fn assembled(all: Seq<Seq<char>>) -> Result<ChangelogView, Seq<char>>
    decreases all.len(),
{
    if all.len() == 0 {
        Ok(ChangelogView { preamble: Seq::empty(), entries: Seq::empty() })
    } else {
        let line = all.last();
        match assembled(all.drop_last()) {
            Err(message) => Err(message),
            Ok(earlier) => if is_heading_line(line) {
                match parse_heading(line_heading(line)) {
                    None => Err(unrecognized_heading(line_heading(line))),
                    Some(heading) => Ok(
                        ChangelogView {
                            preamble: earlier.preamble,
                            entries: earlier.entries.push(
                                EntryView { heading, body: Seq::empty() },
                            ),
                        },
                    ),
                }
            } else if earlier.entries.len() == 0 {
                Ok(
                    ChangelogView {
                        preamble: earlier.preamble + line,
                        entries: earlier.entries,
                    },
                )
            } else {
                let last = earlier.entries.last();
                Ok(
                    ChangelogView {
                        preamble: earlier.preamble,
                        entries: earlier.entries.drop_last().push(
                            EntryView { heading: last.heading, body: last.body + line },
                        ),
                    },
                )
            },
        }
    }
}

/// The first line that is not blank.
pub open spec fn first_written(all: Seq<Seq<char>>) -> Option<Seq<char>>
    decreases all.len(),
{
    if all.len() == 0 {
        None
    } else if trim(all[0]).len() > 0 {
        Some(all[0])
    } else {
        first_written(all.drop_first())
    }
}

/// Whether a line says when a version was released.
pub open spec fn is_release_line(line: Seq<char>) -> bool {
    "Released: "@.is_prefix_of(line) && is_date(line.skip("Released: "@.len() as int))
}

/// The newest version among the first `count` entries that stands last.
pub open spec fn version_before(entries: Seq<EntryView>, count: nat) -> Option<Version>
    decreases count,
{
    if count == 0 {
        None
    } else {
        match entries[count - 1].heading {
            Heading::Version(version) => Some(version),
            Heading::Unreleased => version_before(entries, (count - 1) as nat),
        }
    }
}

/// What is wrong with entry `i`, given those before it.
pub open spec fn entry_problem(entries: Seq<EntryView>, i: int) -> Option<Seq<char>> {
    match entries[i].heading {
        Heading::Version(version) => match first_written(lines(entries[i].body)) {
            None => Some(
                "entry `## "@ + version_text(version)
                    + "` is empty; it must start with `Released: <yyyy-mm-dd>`"@,
            ),
            Some(line) => if !is_release_line(line) {
                Some(
                    "entry `## "@ + version_text(version)
                        + "` must start with `Released: <yyyy-mm-dd>` with a valid date, found `"@
                        + line + "`"@,
                )
            } else {
                match version_before(entries, i as nat) {
                    Some(previous) => if !version_lt(version, previous) {
                        Some(
                            "entries must be newest first: `## "@ + version_text(version)
                                + "` appears after `## "@ + version_text(previous) + "`"@,
                        )
                    } else {
                        None
                    },
                    None => None,
                }
            },
        },
        Heading::Unreleased => if exists|j: int|
            0 <= j < i && (#[trigger] entries[j]).heading == Heading::Unreleased {
            Some("the changelog may contain only one `## (unreleased)` entry"@)
        } else if i != 0 {
            Some("`## (unreleased)` must be the newest entry"@)
        } else {
            None
        },
    }
}

/// What is wrong with the first of `count` entries with which something is.
pub open spec fn entries_problem(entries: Seq<EntryView>, count: nat) -> Option<Seq<char>>
    decreases count,
{
    if count == 0 {
        None
    } else {
        match entries_problem(entries, (count - 1) as nat) {
            Some(message) => Some(message),
            None => entry_problem(entries, count - 1),
        }
    }
}

/// The changelog that a text writes.
pub open spec fn parse_changelog(text: Seq<char>) -> Result<ChangelogView, Seq<char>> {
    if !"# Changelog"@.is_prefix_of(text) {
        Err("expected the file to start with `# Changelog`"@)
    } else {
        match assembled(split_lines(text)) {
            Err(message) => Err(message),
            Ok(changelog) => if changelog.entries.len() == 0 {
                Err("expected at least one `## ` entry"@)
            } else {
                match entries_problem(changelog.entries, changelog.entries.len()) {
                    Some(message) => Err(message),
                    None => Ok(changelog),
                }
            },
        }
    }
}

/// One entry as it is written.
pub open spec fn entry_text(entry: EntryView) -> Seq<char> {
    heading_text(entry.heading) + "\n"@ + entry.body
}

/// Entries as they are written.
pub open spec fn entries_text(entries: Seq<EntryView>) -> Seq<char>
    decreases entries.len(),
{
    if entries.len() == 0 {
        Seq::empty()
    } else {
        entries_text(entries.drop_last()) + entry_text(entries.last())
    }
}

/// A changelog as it is written.
pub open spec fn rendered(changelog: ChangelogView) -> Seq<char> {
    changelog.preamble + entries_text(changelog.entries)
}

/// The bullets, each on its own line.
pub open spec fn bullet_lines(bullets: Seq<Seq<char>>) -> Seq<char>
    decreases bullets.len(),
{
    if bullets.len() == 0 {
        Seq::empty()
    } else {
        bullet_lines(bullets.drop_last()) + bullets.last() + "\n"@
    }
}

/// The body of a new entry.
pub open spec fn new_body(date: Seq<char>, bullets: Seq<Seq<char>>) -> Seq<char> {
    "Released: "@ + date + "\n"@ + (if bullets.len() == 0 {
        Seq::empty()
    } else {
        "\n"@ + bullet_lines(bullets)
    }) + "\n### Features\n\n-\n\n### Fixes\n\n-\n\n### Internals\n\n-\n\n"@
}

/// Whether some entry has the heading.
pub open spec fn has_heading(entries: Seq<EntryView>, heading: Heading) -> bool {
    exists|i: int| 0 <= i < entries.len() && (#[trigger] entries[i]).heading == heading
}

/// Whether a request turns the newest entry, which is unreleased, into the
/// requested one.
pub open spec fn promotes(changelog: ChangelogView, request: Request) -> bool {
    request != Request::Unreleased && changelog.entries.len() > 0 && changelog.entries[0].heading
        == Heading::Unreleased
}

/// The changelog with a new entry, or with its unreleased entry renamed.
pub open spec fn scaffolded(
    changelog: ChangelogView,
    request: Request,
    date: Seq<char>,
    bullets: Seq<Seq<char>>,
) -> Result<(ChangelogView, Action), Seq<char>> {
    let heading = request_heading(request);
    if !is_date(date) {
        Err("invalid release date `"@ + date + "`, expected `<yyyy-mm-dd>`"@)
    } else if has_heading(changelog.entries, heading) {
        Err("`"@ + heading_text(heading) + "` already exists"@)
    } else if promotes(changelog, request) {
        Ok(
            (
                ChangelogView {
                    preamble: changelog.preamble,
                    entries: changelog.entries.update(
                        0,
                        EntryView { heading, body: changelog.entries[0].body },
                    ),
                },
                Action::Renamed { from: changelog.entries[0].heading, to: heading },
            ),
        )
    } else {
        Ok(
            (
                ChangelogView {
                    preamble: changelog.preamble,
                    entries: seq![EntryView { heading, body: new_body(date, bullets) }]
                        + changelog.entries,
                },
                Action::Inserted,
            ),
        )
    }
}

/// The next patch version after the newest entry.
pub open spec fn following_version(changelog: ChangelogView) -> Result<Version, Seq<char>> {
    match changelog.entries[0].heading {
        Heading::Version(version) => if version.patch < u64::MAX {
            Ok(
                Version {
                    major: version.major,
                    minor: version.minor,
                    patch: (version.patch + 1) as u64,
                },
            )
        } else {
            Err("cannot increment release version `"@ + version_text(version) + "`"@)
        },
        Heading::Unreleased => Err(
            "the newest entry is `(unreleased)`; provide a version to promote it"@,
        ),
    }
}

/// Whether a line says when a version was released.
fn valid_release_line(line: &str) -> (r: bool)
    ensures
        r == is_release_line(line@),
{
    match strip_prefix(line, "Released: ") {
        Some(date) => is_valid_date(date.as_str()),
        None => false,
    }
}

fn trim_line_ends_text(text: &str) -> (r: String)
    ensures
        r@ == trim_line_ends(text@),
{
    let chars = chars_of(text);
    let ghost all = text@;
    let mut to: usize = chars.len();
    assert(all.subrange(0, to as int) =~= all);
    while to > 0 && (chars[to - 1] == '\n' || chars[to - 1] == '\r')
        invariant
            to <= chars@.len(),
            chars@ == all,
            trim_line_ends(all) == trim_line_ends(all.subrange(0, to as int)),
        decreases to,
    {
        let ghost now = all.subrange(0, to as int);
        assert(now.last() == chars[to - 1]);
        assert(now.drop_last() =~= all.subrange(0, to - 1));
        to -= 1;
    }
    let ghost now = all.subrange(0, to as int);
    assert(to > 0 ==> now.last() == chars[to - 1]);
    text_of(&chars, 0, to)
}

fn first_written_line(all: &Vec<String>) -> (r: Option<String>)
    ensures
        crate::text::optional_text(r) == first_written(texts(all@)),
{
    let ghost every = texts(all@);
    let mut i: usize = 0;
    assert(every.skip(0) =~= every);
    while i < all.len()
        invariant
            i <= all@.len(),
            every == texts(all@),
            first_written(every) == first_written(every.skip(i as int)),
        decreases all.len() - i,
    {
        let ghost left = every.skip(i as int);
        assert(left[0] == all[i as int]@);
        assert(left.drop_first() =~= every.skip(i as int + 1));
        let trimmed = trim_text(all[i].as_str());
        if chars_of(trimmed.as_str()).len() > 0 {
            return Some(all[i].clone());
        }
        i += 1;
    }
    None
}

fn new_entry_body(date: &str, bullets: &Vec<String>) -> (r: String)
    ensures
        r@ == new_body(date@, texts(bullets@)),
{
    let mut body = "Released: ".to_owned();
    body.append(date);
    body.append("\n");
    let ghost head = body@;
    let ghost all = texts(bullets@);
    if bullets.len() > 0 {
        body.append("\n");
        let mut i: usize = 0;
        assert(body@ =~= head + ("\n"@ + bullet_lines(all.take(0))));
        while i < bullets.len()
            invariant
                i <= bullets@.len(),
                all == texts(bullets@),
                body@ == head + ("\n"@ + bullet_lines(all.take(i as int))),
            decreases bullets.len() - i,
        {
            let ghost next = all.take(i as int + 1);
            let ghost before = body@;
            assert(next.drop_last() =~= all.take(i as int));
            assert(next.last() == bullets[i as int]@);
            body.append(bullets[i].as_str());
            body.append("\n");
            assert(body@ =~= head + ("\n"@ + (bullet_lines(all.take(i as int)) + next.last()
                + "\n"@)));
            i += 1;
        }
        assert(all.take(i as int) =~= all);
    } else {
        assert(body@ =~= head + Seq::empty());
    }
    body.append("\n### Features\n\n-\n\n### Fixes\n\n-\n\n### Internals\n\n-\n\n");
    body
}

proof fn lemma_assembled_error_stays(all: Seq<Seq<char>>, k: int)
    requires
        0 <= k <= all.len(),
        assembled(all.take(k)) is Err,
    ensures
        assembled(all) == assembled(all.take(k)),
    decreases all.len(),
{
    if k == all.len() {
        assert(all.take(k) =~= all);
    } else {
        assert(all.drop_last().take(k) =~= all.take(k));
        lemma_assembled_error_stays(all.drop_last(), k);
    }
}

proof fn lemma_problem_stays(entries: Seq<EntryView>, k: nat, count: nat)
    requires
        k <= count,
        entries_problem(entries, k) is Some,
    ensures
        entries_problem(entries, count) == entries_problem(entries, k),
    decreases count,
{
    if k < count {
        lemma_problem_stays(entries, k, (count - 1) as nat);
    }
}

impl Changelog {
    /// A parsed changelog always has an entry.
    pub open spec fn wf(self) -> bool {
        self.entries@.len() > 0
    }

    pub fn parse(text: &str) -> (r: Result<Changelog, String>)
        ensures
            match r {
                Ok(changelog) => parse_changelog(text@) == Ok::<ChangelogView, Seq<char>>(
                    changelog@,
                ) && changelog.wf(),
                Err(message) => parse_changelog(text@) == Err::<ChangelogView, Seq<char>>(
                    message@,
                ),
            },
    {
        if !starts_with(text, "# Changelog") {
            return Err("expected the file to start with `# Changelog`".to_owned());
        }
        let changelog = match Changelog::assemble(&split_lines_text(text)) {
            Ok(changelog) => changelog,
            Err(message) => {
                return Err(message);
            },
        };
        if changelog.entries.len() == 0 {
            return Err("expected at least one `## ` entry".to_owned());
        }
        match changelog.validate() {
            Ok(_) => Ok(changelog),
            Err(message) => Err(message),
        }
    }

    fn assemble(all: &Vec<String>) -> (r: Result<Changelog, String>)
        ensures
            match r {
                Ok(changelog) => assembled(texts(all@)) == Ok::<ChangelogView, Seq<char>>(
                    changelog@,
                ),
                Err(message) => assembled(texts(all@)) == Err::<ChangelogView, Seq<char>>(
                    message@,
                ),
            },
    {
        let ghost every = texts(all@);
        let mut preamble = String::new();
        let mut entries: Vec<Entry> = Vec::new();
        assert(preamble@ =~= Seq::empty());
        assert(entry_views(entries@) =~= Seq::empty());
        let mut i: usize = 0;
        while i < all.len()
            invariant
                i <= all@.len(),
                every == texts(all@),
                assembled(every.take(i as int)) == Ok::<ChangelogView, Seq<char>>(
                    ChangelogView { preamble: preamble@, entries: entry_views(entries@) },
                ),
            decreases all.len() - i,
        {
            let ghost next = every.take(i as int + 1);
            let ghost before = entry_views(entries@);
            assert(next.drop_last() =~= every.take(i as int));
            assert(next.last() == all[i as int]@);
            match strip_prefix(all[i].as_str(), "## ") {
                Some(rest) => {
                    let heading_text = trim_line_ends_text(rest.as_str());
                    match Heading::parse(heading_text.as_str()) {
                        Some(heading) => {
                            let entry = Entry { heading, body: String::new() };
                            assert(entry@.body =~= Seq::empty());
                            entries.push(entry);
                            assert(entry_views(entries@) =~= before.push(entry@));
                        },
                        None => {
                            let mut message = "unrecognized entry heading `## ".to_owned();
                            message.append(heading_text.as_str());
                            message.append(
                                "`, expected `## <major>.<minor>.<patch>` or `## (unreleased)`",
                            );
                            proof {
                                lemma_assembled_error_stays(every, i as int + 1);
                            }
                            return Err(message);
                        },
                    }
                },
                None => {
                    match entries.pop() {
                        Some(entry) => {
                            let mut body = entry.body;
                            body.append(all[i].as_str());
                            let longer = Entry { heading: entry.heading, body };
                            assert(before.last() == entry@);
                            assert(entry_views(entries@) =~= before.drop_last());
                            entries.push(longer);
                            assert(entry_views(entries@) =~= before.drop_last().push(longer@));
                        },
                        None => {
                            preamble.append(all[i].as_str());
                            assert(entry_views(entries@) =~= before);
                        },
                    }
                },
            }
            i += 1;
        }
        assert(every.take(i as int) =~= every);
        Ok(Changelog { preamble, entries })
    }

    fn check_entry(&self, index: usize, previous: Option<Version>, unreleased_seen: bool) -> (r:
        Result<(), String>)
        requires
            index < self.entries@.len(),
            previous == version_before(self@.entries, index as nat),
            unreleased_seen == exists|j: int|
                0 <= j < index && (#[trigger] self@.entries[j]).heading == Heading::Unreleased,
        ensures
            match r {
                Ok(_) => entry_problem(self@.entries, index as int) is None,
                Err(message) => entry_problem(self@.entries, index as int) == Some(message@),
            },
    {
        let entry = &self.entries[index];
        assert(self@.entries[index as int] == entry@);
        match entry.heading {
            Heading::Version(version) => {
                let all = lines_text(entry.body.as_str());
                match first_written_line(&all) {
                    None => {
                        let mut message = "entry `## ".to_owned();
                        message.append(version.text().as_str());
                        message.append("` is empty; it must start with `Released: <yyyy-mm-dd>`");
                        Err(message)
                    },
                    Some(line) => {
                        if !valid_release_line(line.as_str()) {
                            let mut message = "entry `## ".to_owned();
                            message.append(version.text().as_str());
                            message.append(
                                "` must start with `Released: <yyyy-mm-dd>` with a valid date, found `",
                            );
                            message.append(line.as_str());
                            message.append("`");
                            return Err(message);
                        }
                        if let Some(previous) = previous {
                            if !version.older_than(&previous) {
                                let mut message = "entries must be newest first: `## ".to_owned();
                                message.append(version.text().as_str());
                                message.append("` appears after `## ");
                                message.append(previous.text().as_str());
                                message.append("`");
                                return Err(message);
                            }
                        }
                        Ok(())
                    },
                }
            },
            Heading::Unreleased => {
                if unreleased_seen {
                    return Err(
                        "the changelog may contain only one `## (unreleased)` entry".to_owned(),
                    );
                }
                if index != 0 {
                    return Err("`## (unreleased)` must be the newest entry".to_owned());
                }
                Ok(())
            },
        }
    }

    fn validate(&self) -> (r: Result<(), String>)
        ensures
            match r {
                Ok(_) => entries_problem(self@.entries, self@.entries.len()) is None,
                Err(message) => entries_problem(self@.entries, self@.entries.len()) == Some(
                    message@,
                ),
            },
    {
        let ghost all = self@.entries;
        let mut previous: Option<Version> = None;
        let mut unreleased_seen: bool = false;
        let mut index: usize = 0;
        while index < self.entries.len()
            invariant
                index <= self.entries@.len(),
                all == self@.entries,
                entries_problem(all, index as nat) is None,
                previous == version_before(all, index as nat),
                unreleased_seen == exists|j: int|
                    0 <= j < index && (#[trigger] all[j]).heading == Heading::Unreleased,
            decreases self.entries.len() - index,
        {
            match self.check_entry(index, previous, unreleased_seen) {
                Err(message) => {
                    proof {
                        lemma_problem_stays(all, (index + 1) as nat, all.len());
                    }
                    return Err(message);
                },
                Ok(_) => {},
            }
            assert(all[index as int] == self.entries[index as int]@);
            match self.entries[index].heading {
                Heading::Version(version) => {
                    previous = Some(version);
                },
                Heading::Unreleased => {
                    unreleased_seen = true;
                },
            }
            index += 1;
        }
        Ok(())
    }

    pub fn top(&self) -> (r: &Entry)
        requires
            self.wf(),
        ensures
            *r == self.entries@[0],
    {
        &self.entries[0]
    }

    pub fn entry_count(&self) -> (r: usize)
        ensures
            r == self.entries@.len(),
    {
        self.entries.len()
    }

    /// Return the next patch version after the newest versioned entry.
    ///
    /// A top `(unreleased)` entry must be promoted explicitly because the
    /// version it represents is a product decision, not a mechanical patch
    /// increment.
    pub fn next_version(&self) -> (r: Result<Version, String>)
        requires
            self.wf(),
        ensures
            match r {
                Ok(version) => following_version(self@) == Ok::<Version, Seq<char>>(version),
                Err(message) => following_version(self@) == Err::<Version, Seq<char>>(message@),
            },
    {
        match self.top().heading {
            Heading::Version(version) => match version.next_patch() {
                Some(next) => Ok(next),
                None => {
                    let mut message = "cannot increment release version `".to_owned();
                    message.append(version.text().as_str());
                    message.append("`");
                    Err(message)
                },
            },
            Heading::Unreleased => Err(
                "the newest entry is `(unreleased)`; provide a version to promote it".to_owned(),
            ),
        }
    }

    pub fn entry(&self, heading: Heading) -> (r: Option<&Entry>)
        ensures
            match r {
                Some(entry) => exists|i: int|
                    0 <= i < self.entries@.len() && *entry == #[trigger] self.entries@[i]
                        && entry.heading == heading && forall|j: int|
                        0 <= j < i ==> (#[trigger] self.entries@[j]).heading != heading,
                None => !has_heading(self@.entries, heading),
            },
    {
        let mut i: usize = 0;
        while i < self.entries.len()
            invariant
                i <= self.entries@.len(),
                forall|j: int| 0 <= j < i ==> (#[trigger] self.entries@[j]).heading != heading,
            decreases self.entries.len() - i,
        {
            if self.entries[i].heading == heading {
                assert(self.entries@[i as int].heading == heading);
                return Some(&self.entries[i]);
            }
            i += 1;
        }
        proof {
            if has_heading(self@.entries, heading) {
                let k = choose|k: int|
                    0 <= k < self@.entries.len() && (#[trigger] self@.entries[k]).heading
                        == heading;
                assert(self.entries@[k].heading == heading);
            }
        }
        None
    }

    pub fn replaces_unreleased(&self, request: Request) -> (r: bool)
        ensures
            r == promotes(self@, request),
    {
        if request == Request::Unreleased || self.entries.len() == 0 {
            return false;
        }
        assert(self@.entries[0] == self.entries@[0]@);
        self.entries[0].heading == Heading::Unreleased
    }

    /// Add a new entry, or rename the top `(unreleased)` entry.
    pub fn scaffold(&mut self, request: Request, date: &str, bullets: &Vec<String>) -> (r: Result<
        Action,
        String,
    >)
        ensures
            match r {
                Ok(action) => scaffolded(old(self)@, request, date@, texts(bullets@)) == Ok::<
                    (ChangelogView, Action),
                    Seq<char>,
                >((final(self)@, action)),
                Err(message) => scaffolded(old(self)@, request, date@, texts(bullets@)) == Err::<
                    (ChangelogView, Action),
                    Seq<char>,
                >(message@) && *final(self) == *old(self),
            },
            old(self).wf() ==> final(self).wf(),
    {
        if !is_valid_date(date) {
            let mut message = "invalid release date `".to_owned();
            message.append(date);
            message.append("`, expected `<yyyy-mm-dd>`");
            return Err(message);
        }
        let heading = request.heading();
        if self.entry(heading).is_some() {
            assert(has_heading(self@.entries, heading)) by {
                let i = choose|i: int|
                    0 <= i < self.entries@.len() && (#[trigger] self.entries@[i]).heading
                        == heading;
                assert(self@.entries[i].heading == heading);
            }
            let mut message = "`".to_owned();
            message.append(heading.heading().as_str());
            message.append("` already exists");
            return Err(message);
        }
        let ghost before = self@.entries;
        if self.replaces_unreleased(request) {
            let entry = self.entries.remove(0);
            let from = entry.heading;
            assert(before[0] == entry@);
            let renamed = Entry { heading, body: entry.body };
            self.entries.insert(0, renamed);
            assert(self@.entries =~= before.update(0, renamed@));
            return Ok(Action::Renamed { from, to: heading });
        }
        let entry = Entry { heading, body: new_entry_body(date, bullets) };
        self.entries.insert(0, entry);
        assert(self@.entries =~= seq![entry@] + before);
        Ok(Action::Inserted)
    }

    pub fn render(&self) -> (r: String)
        ensures
            r@ == rendered(self@),
    {
        let ghost all = self@.entries;
        let mut text = self.preamble.clone();
        let mut i: usize = 0;
        assert(text@ =~= self.preamble@ + entries_text(all.take(0)));
        while i < self.entries.len()
            invariant
                i <= self.entries@.len(),
                all == self@.entries,
                text@ == self.preamble@ + entries_text(all.take(i as int)),
            decreases self.entries.len() - i,
        {
            let ghost next = all.take(i as int + 1);
            let ghost before = entries_text(all.take(i as int));
            assert(next.drop_last() =~= all.take(i as int));
            assert(next.last() == self.entries[i as int]@);
            text.append(self.entries[i].heading.heading().as_str());
            text.append("\n");
            text.append(self.entries[i].body.as_str());
            assert(text@ =~= self.preamble@ + (before + entry_text(next.last())));
            i += 1;
        }
        assert(all.take(i as int) =~= all);
        text
    }
}

/// Whether a heading line ends in a newline and in nothing else.
pub open spec fn is_plain_heading(line: Seq<char>) -> bool {
    is_heading_line(line) ==> line == "## "@ + line_heading(line) + "\n"@
}

/// Parsing and rendering lose nothing: a changelog whose headings end in plain
/// newlines is written back as it was read.
pub proof fn law_parse_then_render_is_lossless(text: Seq<char>)
    requires
        parse_changelog(text) is Ok,
        forall|i: int|
            0 <= i < split_lines(text).len() ==> is_plain_heading(#[trigger] split_lines(text)[i]),
    ensures
        rendered(parse_changelog(text)->Ok_0) == text,
{
    lemma_lossless(split_lines(text));
    crate::text::law_split_lines_concat(text);
}

proof fn lemma_lossless(all: Seq<Seq<char>>)
    requires
        assembled(all) is Ok,
        forall|i: int| 0 <= i < all.len() ==> is_plain_heading(#[trigger] all[i]),
    ensures
        rendered(assembled(all)->Ok_0) == concat(all),
    decreases all.len(),
{
    if all.len() == 0 {
        assert(rendered(assembled(all)->Ok_0) =~= concat(all));
    } else {
        let front = all.drop_last();
        let line = all.last();
        assert forall|i: int| 0 <= i < front.len() implies is_plain_heading(#[trigger] front[i]) by {
            assert(front[i] == all[i]);
        }
        lemma_lossless(front);
        let earlier = assembled(front)->Ok_0;
        let now = assembled(all)->Ok_0;
        assert(is_plain_heading(all[all.len() - 1]));
        crate::text::lemma_concat_add(front, seq![line]);
        crate::text::lemma_concat_one(line);
        assert(front + seq![line] =~= all);
        assert(concat(all) == concat(front) + line);
        if is_heading_line(line) {
            let heading = parse_heading(line_heading(line))->0;
            if heading is Version {
                law_versions_are_strict(line_heading(line));
            }
            assert(heading_name(heading) == line_heading(line));
            assert(now.entries.drop_last() =~= earlier.entries);
            assert(entry_text(now.entries.last()) =~= line);
            assert(rendered(now) =~= rendered(earlier) + line);
        } else if earlier.entries.len() == 0 {
            assert(rendered(now) =~= rendered(earlier) + line);
        } else {
            assert(now.entries.drop_last() =~= earlier.entries.drop_last());
            assert(entry_text(now.entries.last()) =~= entry_text(earlier.entries.last()) + line);
            assert(rendered(now) =~= rendered(earlier) + line);
        }
    }
}

/// The places of the lines that start entries.
pub open spec fn heading_places(all: Seq<Seq<char>>) -> Seq<int>
    decreases all.len(),
{
    if all.len() == 0 {
        seq![]
    } else if is_heading_line(all.last()) {
        heading_places(all.drop_last()).push(all.len() - 1)
    } else {
        heading_places(all.drop_last())
    }
}

/// The place of the first line from `from` on that starts an entry, or else
/// the number of lines.
pub open spec fn next_heading(all: Seq<Seq<char>>, from: int) -> int
    decreases all.len() - from,
{
    if from >= all.len() || is_heading_line(all[from]) {
        from
    } else {
        next_heading(all, from + 1)
    }
}

/// What stands behind line `k`, up to the next line that starts an entry.
pub open spec fn section_behind(all: Seq<Seq<char>>, k: int) -> Seq<char> {
    concat(all.subrange(k + 1, next_heading(all, k + 1)))
}

/// Whether a line, without the line ends behind it, is the heading.
pub open spec fn writes_heading(line: Seq<char>, heading: Heading) -> bool {
    trim_line_ends(line) == heading_text(heading)
}

/// Where the entry that starts at the `i`th of `places` ends.
spec fn entry_end(all: Seq<Seq<char>>, places: Seq<int>, i: int) -> int {
    if i + 1 < places.len() {
        places[i + 1]
    } else {
        all.len() as int
    }
}

proof fn lemma_heading_places(all: Seq<Seq<char>>)
    ensures
        ({
            let places = heading_places(all);
            &&& forall|i: int|
                0 <= i < places.len() ==> 0 <= #[trigger] places[i] < all.len() && is_heading_line(
                    all[places[i]],
                )
            &&& forall|i: int, j: int|
                0 <= i < j < places.len() ==> #[trigger] places[i] < #[trigger] places[j]
            &&& forall|k: int|
                0 <= k < all.len() && is_heading_line(#[trigger] all[k]) ==> places.contains(k)
        }),
    decreases all.len(),
{
    if all.len() > 0 {
        let front = all.drop_last();
        lemma_heading_places(front);
        let earlier = heading_places(front);
        let places = heading_places(all);
        assert forall|i: int| 0 <= i < places.len() implies 0 <= #[trigger] places[i] < all.len()
            && is_heading_line(all[places[i]]) by {
            if i < earlier.len() {
                assert(places[i] == earlier[i]);
                assert(front[earlier[i]] == all[earlier[i]]);
            }
        }
        assert forall|i: int, j: int| 0 <= i < j < places.len() implies #[trigger] places[i]
            < #[trigger] places[j] by {
            assert(places[i] == earlier[i]);
            if j < earlier.len() {
                assert(places[j] == earlier[j]);
            }
        }
        assert forall|k: int| 0 <= k < all.len() && is_heading_line(#[trigger] all[k]) implies
            places.contains(k) by {
            if k < front.len() {
                assert(front[k] == all[k]);
                let i = choose|i: int| 0 <= i < earlier.len() && earlier[i] == k;
                assert(places[i] == k);
            } else {
                assert(places[places.len() - 1] == k);
            }
        }
    }
}

/// The entries of a changelog are its headings, each with what stands behind
/// it.
proof fn lemma_assembled_entries(all: Seq<Seq<char>>)
    requires
        assembled(all) is Ok,
    ensures
        ({
            let entries = assembled(all)->Ok_0.entries;
            let places = heading_places(all);
            &&& entries.len() == places.len()
            &&& forall|i: int|
                0 <= i < entries.len() ==> parse_heading(line_heading(all[places[i]])) == Some(
                    (#[trigger] entries[i]).heading,
                ) && entries[i].body == concat(
                    all.subrange(places[i] + 1, entry_end(all, places, i)),
                )
        }),
    decreases all.len(),
{
    if all.len() > 0 {
        let front = all.drop_last();
        let line = all.last();
        lemma_assembled_entries(front);
        lemma_heading_places(front);
        lemma_heading_places(all);
        let before = assembled(front)->Ok_0.entries;
        let entries = assembled(all)->Ok_0.entries;
        let earlier = heading_places(front);
        let places = heading_places(all);
        assert forall|i: int| 0 <= i < entries.len() implies parse_heading(
            line_heading(all[places[i]]),
        ) == Some((#[trigger] entries[i]).heading) && entries[i].body == concat(
            all.subrange(places[i] + 1, entry_end(all, places, i)),
        ) by {
            if i < before.len() {
                assert(places[i] == earlier[i]);
                assert(front[earlier[i]] == all[earlier[i]]);
                let from = places[i] + 1;
                assert(before[i].body == concat(
                    front.subrange(from, entry_end(front, earlier, i)),
                ));
                if i + 1 < before.len() || is_heading_line(line) {
                    assert(entries[i] == before[i]);
                    assert(entry_end(all, places, i) == entry_end(front, earlier, i));
                    assert(front.subrange(from, entry_end(front, earlier, i)) =~= all.subrange(
                        from,
                        entry_end(all, places, i),
                    ));
                } else {
                    assert(before.last() == before[i]);
                    let own = front.subrange(from, front.len() as int);
                    crate::text::lemma_concat_add(own, seq![line]);
                    crate::text::lemma_concat_one(line);
                    assert(all.subrange(from, all.len() as int) =~= own + seq![line]);
                }
            } else {
                assert(all.subrange(all.len() as int, all.len() as int) =~= seq![]);
            }
        }
    }
}

proof fn lemma_next_heading(all: Seq<Seq<char>>, from: int, to: int)
    requires
        0 <= from <= to <= all.len(),
        forall|k: int| from <= k < to ==> !is_heading_line(#[trigger] all[k]),
        to < all.len() ==> is_heading_line(all[to]),
    ensures
        next_heading(all, from) == to,
    decreases to - from,
{
    if from < to {
        lemma_next_heading(all, from + 1, to);
    }
}

proof fn lemma_entry_end(all: Seq<Seq<char>>, i: int)
    requires
        0 <= i < heading_places(all).len(),
    ensures
        next_heading(all, heading_places(all)[i] + 1) == entry_end(all, heading_places(all), i),
{
    let places = heading_places(all);
    lemma_heading_places(all);
    let from = places[i] + 1;
    let to = entry_end(all, places, i);
    if i + 1 < places.len() {
        assert(places[i] < places[i + 1]);
    }
    assert forall|k: int| from <= k < to implies !is_heading_line(#[trigger] all[k]) by {
        if is_heading_line(all[k]) {
            let j = choose|j: int| 0 <= j < places.len() && places[j] == k;
            if j < i {
                assert(places[j] < places[i]);
            } else if j > i + 1 {
                assert(places[i + 1] < places[j]);
            }
        }
    }
    lemma_next_heading(all, from, to);
}

proof fn lemma_trimmed_heading(line: Seq<char>)
    ensures
        trim_line_ends(line).is_prefix_of(line),
        is_heading_line(line) ==> trim_line_ends(line) == "## "@ + line_heading(line),
    decreases line.len(),
{
    reveal_strlit("## ");
    if line.len() > 0 && (line.last() == '\n' || line.last() == '\r') {
        let front = line.drop_last();
        lemma_trimmed_heading(front);
        assert(line.subrange(0, trim_line_ends(line).len() as int) =~= front.subrange(
            0,
            trim_line_ends(front).len() as int,
        ));
        if is_heading_line(line) {
            assert(line.subrange(0, 3)[2] == ' ');
            assert(line[2] == ' ');
            assert(line.len() > 3);
            assert(front.subrange(0, 3) =~= line.subrange(0, 3));
            assert(line.skip(3).drop_last() =~= front.skip(3));
            assert(line.skip(3).last() == line.last());
        }
    } else {
        assert(line.subrange(0, line.len() as int) =~= line);
        if is_heading_line(line) {
            assert(line =~= line.subrange(0, 3) + line.skip(3));
            if line.len() > 3 {
                assert(line.skip(3).last() == line.last());
            }
        }
    }
}

/// A name leads back to its heading.
proof fn lemma_heading_name_parsed(heading: Heading)
    ensures
        parse_heading(heading_name(heading)) == Some(heading),
{
    if let Heading::Version(version) = heading {
        law_version_round_trip(version);
        if version_text(version) == "(unreleased)"@ {
            reveal_strlit("(unreleased)");
            crate::text::lemma_position_bounds("(unreleased)"@, '.');
            assert(split("(unreleased)"@, '.').len() == 1);
        }
    }
}

proof fn lemma_writes_heading(line: Seq<char>, heading: Heading)
    ensures
        writes_heading(line, heading) <==> is_heading_line(line) && parse_heading(
            line_heading(line),
        ) == Some(heading),
{
    let mark = "## "@;
    lemma_trimmed_heading(line);
    if writes_heading(line, heading) {
        let kept = trim_line_ends(line);
        assert(line.subrange(0, mark.len() as int) =~= mark) by {
            assert forall|j: int| 0 <= j < mark.len() implies line[j] == mark[j] by {
                assert(line.subrange(0, kept.len() as int)[j] == kept[j]);
            }
        }
        assert(kept.skip(mark.len() as int) =~= heading_name(heading));
        assert((mark + line_heading(line)).skip(mark.len() as int) =~= line_heading(line));
        lemma_heading_name_parsed(heading);
    }
    if is_heading_line(line) && parse_heading(line_heading(line)) == Some(heading) {
        if heading is Version {
            law_versions_are_strict(line_heading(line));
        }
        assert(heading_name(heading) == line_heading(line));
    }
}

/// A changelog has an entry for exactly the headings that its text writes.
pub proof fn law_entries_are_the_written_headings(text: Seq<char>, heading: Heading)
    requires
        parse_changelog(text) is Ok,
    ensures
        has_heading(parse_changelog(text)->Ok_0.entries, heading) <==> exists|k: int|
            0 <= k < split_lines(text).len() && writes_heading(
                #[trigger] split_lines(text)[k],
                heading,
            ),
{
    let all = split_lines(text);
    let entries = parse_changelog(text)->Ok_0.entries;
    let places = heading_places(all);
    lemma_heading_places(all);
    lemma_assembled_entries(all);
    if has_heading(entries, heading) {
        let i = choose|i: int| 0 <= i < entries.len() && (#[trigger] entries[i]).heading == heading;
        assert(is_heading_line(all[places[i]]));
        lemma_writes_heading(all[places[i]], heading);
    }
    if exists|k: int| 0 <= k < all.len() && writes_heading(#[trigger] all[k], heading) {
        let k = choose|k: int| 0 <= k < all.len() && writes_heading(#[trigger] all[k], heading);
        lemma_writes_heading(all[k], heading);
        let i = choose|i: int| 0 <= i < places.len() && places[i] == k;
        assert(entries[i].heading == heading);
    }
}

/// An entry says exactly what stands between its heading and the next one, or
/// the end of the text.
pub proof fn law_an_entry_is_what_stands_behind_its_heading(
    text: Seq<char>,
    heading: Heading,
    i: int,
    k: int,
)
    requires
        parse_changelog(text) is Ok,
        0 <= i < parse_changelog(text)->Ok_0.entries.len(),
        parse_changelog(text)->Ok_0.entries[i].heading == heading,
        0 <= k < split_lines(text).len(),
        writes_heading(split_lines(text)[k], heading),
    ensures
        parse_changelog(text)->Ok_0.entries[i].body == section_behind(split_lines(text), k),
        text == concat(split_lines(text).take(k + 1)) + section_behind(split_lines(text), k)
            + concat(split_lines(text).skip(next_heading(split_lines(text), k + 1))),
{
    let all = split_lines(text);
    let entries = parse_changelog(text)->Ok_0.entries;
    let places = heading_places(all);
    lemma_heading_places(all);
    lemma_assembled_entries(all);
    lemma_writes_heading(all[k], heading);
    let j = choose|j: int| 0 <= j < places.len() && places[j] == k;
    assert(entries[j].heading == heading);
    if i < j {
        law_parsed_entries_are_ordered(text, i, j);
    } else if j < i {
        law_parsed_entries_are_ordered(text, j, i);
    }
    lemma_entry_end(all, i);
    let end = next_heading(all, k + 1);
    let head = all.take(k + 1);
    let own = all.subrange(k + 1, end);
    crate::text::law_split_lines_concat(text);
    if i + 1 < places.len() {
        assert(places[i] < places[i + 1]);
    }
    crate::text::lemma_concat_add(head, own);
    crate::text::lemma_concat_add(head + own, all.skip(end));
    assert(head + own + all.skip(end) =~= all);
}

/// A changelog that has been read lists its versions newest first, and at most
/// its first entry is unreleased.
pub proof fn law_parsed_entries_are_ordered(text: Seq<char>, i: int, j: int)
    requires
        parse_changelog(text) is Ok,
        0 <= i < j < (parse_changelog(text)->Ok_0).entries.len(),
    ensures
        match ((parse_changelog(text)->Ok_0).entries[i].heading, (parse_changelog(
            text,
        )->Ok_0).entries[j].heading) {
            (Heading::Version(newer), Heading::Version(older)) => version_lt(older, newer),
            (Heading::Unreleased, Heading::Version(_)) => i == 0,
            (_, Heading::Unreleased) => false,
        },
{
    let entries = (parse_changelog(text)->Ok_0).entries;
    lemma_no_problem(entries, j as nat, entries.len());
    lemma_no_problem(entries, i as nat, entries.len());
    assert(entry_problem(entries, j) is None);
    if let Heading::Version(newer) = entries[i].heading {
        lemma_versions_fall(entries, i, j as nat);
    }
}

proof fn lemma_no_problem(entries: Seq<EntryView>, k: nat, count: nat)
    requires
        k < count,
        entries_problem(entries, count) is None,
    ensures
        entry_problem(entries, k as int) is None,
        entries_problem(entries, k) is None,
    decreases count,
{
    if k < count - 1 {
        lemma_no_problem(entries, k, (count - 1) as nat);
    }
}

proof fn lemma_versions_fall(entries: Seq<EntryView>, i: int, count: nat)
    requires
        0 <= i < count < entries.len(),
        entries_problem(entries, entries.len()) is None,
        entries[i].heading is Version,
    ensures
        version_before(entries, count) matches Some(last) && (last == (entries[i].heading->Version_0)
            || version_lt(last, entries[i].heading->Version_0)),
    decreases count,
{
    lemma_no_problem(entries, (count - 1) as nat, entries.len());
    if i < count - 1 {
        lemma_versions_fall(entries, i, (count - 1) as nat);
    }
}

/// A new entry keeps the changelog valid where its version is newer than the
/// newest one.
pub proof fn law_scaffold_keeps_a_changelog_valid(
    changelog: ChangelogView,
    request: Request,
    date: Seq<char>,
    bullets: Seq<Seq<char>>,
)
    requires
        entries_problem(changelog.entries, changelog.entries.len()) is None,
        scaffolded(changelog, request, date, bullets) is Ok,
        (scaffolded(changelog, request, date, bullets)->Ok_0).1 == Action::Inserted,
        request matches Request::Version(version) ==> forall|i: int|
            0 <= i < changelog.entries.len() ==> match #[trigger] changelog.entries[i].heading {
                Heading::Version(older) => version_lt(older, version),
                Heading::Unreleased => true,
            },
    ensures
        ({
            let entries = (scaffolded(changelog, request, date, bullets)->Ok_0).0.entries;
            entries_problem(entries, entries.len()) is None
        }),
{
    let old_entries = changelog.entries;
    let entries = (scaffolded(changelog, request, date, bullets)->Ok_0).0.entries;
    assert(entries[0].body == new_body(date, bullets));
    lemma_new_body_starts(date, bullets);
    assert(entry_problem(entries, 0) is None);
    assert(entries.drop_first() =~= old_entries);
    lemma_grown(changelog.entries, entries, request, old_entries.len());
}

proof fn lemma_grown(
    old_entries: Seq<EntryView>,
    entries: Seq<EntryView>,
    request: Request,
    count: nat,
)
    requires
        entries.len() == old_entries.len() + 1,
        entries.drop_first() == old_entries,
        entries[0].heading == request_heading(request),
        entry_problem(entries, 0) is None,
        count <= old_entries.len(),
        entries_problem(old_entries, old_entries.len()) is None,
        !has_heading(old_entries, request_heading(request)),
        request == Request::Unreleased || old_entries.len() == 0 || old_entries[0].heading
            != Heading::Unreleased,
        request matches Request::Version(version) ==> forall|i: int|
            0 <= i < old_entries.len() ==> match #[trigger] old_entries[i].heading {
                Heading::Version(older) => version_lt(older, version),
                Heading::Unreleased => true,
            },
    ensures
        entries_problem(entries, count + 1) is None,
        version_before(entries, count + 1) == (match version_before(old_entries, count) {
            Some(version) => Some(version),
            None => match request {
                Request::Version(version) => Some(version),
                Request::Unreleased => None,
            },
        }),
    decreases count,
{
    if count == 0 {
        reveal_with_fuel(entries_problem, 2);
        reveal_with_fuel(version_before, 2);
    } else {
        let k = count - 1;
        lemma_grown(old_entries, entries, request, k as nat);
        assert(entries[count as int] == old_entries[k]) by {
            assert(entries.drop_first()[k] == entries[k + 1]);
        }
        lemma_no_problem(old_entries, k as nat, old_entries.len());
        if old_entries[k].heading == Heading::Unreleased {
            if k > 0 {
                assert(entry_problem(old_entries, k) is Some);
            }
            assert(has_heading(old_entries, Heading::Unreleased));
        }
    }
}

/// A new entry starts with the line that says when it was released.
proof fn lemma_new_body_starts(date: Seq<char>, bullets: Seq<Seq<char>>)
    requires
        is_date(date),
    ensures
        first_written(lines(new_body(date, bullets))) matches Some(line) && is_release_line(line),
{
    reveal_strlit("Released: ");
    reveal_strlit("\n");
    let body = new_body(date, bullets);
    let line = "Released: "@ + date;
    let head = line + "\n"@;
    assert forall|j: int| 0 <= j < line.len() implies #[trigger] body[j] != '\n' by {
        assert(body[j] == line[j]);
        if j >= 10 {
            assert(line[j] == date[j - 10]);
            lemma_date_chars(date, j - 10);
        }
    }
    let n = line.len() as int;
    assert(body[n] == '\n');
    crate::text::lemma_position(body, '\n', n);
    let all = split_lines(body);
    assert(all[0] == body.take(n + 1));
    assert(body.take(n + 1) =~= head);
    assert(head.drop_last() =~= line);
    assert(lines(body)[0] == crate::text::strip_line_end(head));
    assert(line.last() == date[9]);
    lemma_date_chars(date, 9);
    assert(crate::text::strip_line_end(head) == line);
    assert(line.skip("Released: "@.len() as int) =~= date);
    assert("Released: "@.is_prefix_of(line)) by {
        assert(line.subrange(0, 10) =~= "Released: "@);
    }
    lemma_trim_keeps(line);
}

proof fn lemma_date_chars(date: Seq<char>, i: int)
    requires
        is_date(date),
        0 <= i < 10,
    ensures
        date[i] == '-' || crate::text::is_digit(date[i]),
{
    if i < 4 {
        assert(date.subrange(0, 4)[i] == date[i]);
    } else if 5 <= i < 7 {
        assert(date.subrange(5, 7)[i - 5] == date[i]);
    } else if 8 <= i {
        assert(date.subrange(8, 10)[i - 8] == date[i]);
    }
}

proof fn lemma_trim_keeps(line: Seq<char>)
    requires
        line.len() > 0,
        line[0] == 'R',
    ensures
        trim(line).len() > 0,
{
    lemma_trim_end_keeps(line, 0);
}

proof fn lemma_trim_end_keeps(line: Seq<char>, i: int)
    requires
        0 <= i < line.len(),
        line[i] == 'R',
    ensures
        crate::text::trim_end(line).len() > i,
        crate::text::trim_end(line)[i] == 'R',
    decreases line.len(),
{
    if crate::text::is_space(line.last()) {
        lemma_trim_end_keeps(line.drop_last(), i);
    }
}

} // verus!
