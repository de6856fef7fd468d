//! What the changelog commands promise of merges, notes and entries.

use vstd::prelude::*;

use crate::changelog::date::is_date;
use crate::changelog::promises::{
    law_entries_are_written_one_after_the_other, law_scaffolding_changes_only_the_top,
};
use crate::changelog::{
    following_version, heading_name, heading_text, new_body, parse_changelog, parse_request,
    rendered, request_heading, scaffolded, ChangelogView, EntryView, Heading, Request,
};
use crate::commands::changelog::{
    bounded, first_trimmed, git_bullets, git_request_problem, is_ref, lossy, merge_log, notes_of,
    parse_target, prepared, prepared_from_git, pull_request_of, record_bullet, ChangelogFault,
    GitOutput,
};
use crate::io::IoError;
use crate::sublist::{is_picked, lemma_picked_more, lemma_picked_none};
use crate::text::{
    after_last, decimal, find, is_digit, is_space, is_tight, law_a_padded_text_is_trimmed_to_itself,
    law_a_split_is_at_the_first_occurrence, law_decimal_round_trip,
    law_every_occurrence_is_replaced, law_the_first_occurrence_is_found,
    law_written_numbers_are_read_back, lemma_found_at, lines, split, split_once, stands_at, trim,
    unsigned_value,
};

verus! {

/// Whether line `k` is the first of `all` that is not blank.
pub open spec fn says_first(all: Seq<Seq<char>>, k: int) -> bool {
    &&& 0 <= k < all.len()
    &&& trim(all[k]).len() > 0
    &&& forall|j: int| 0 <= j < k ==> trim(#[trigger] all[j]).len() == 0
}

/// What some lines say first is the first of them that is not blank, without
/// the white space around it; they say nothing exactly where all are blank.
pub proof fn law_what_is_said_first_is_the_first_written_line(all: Seq<Seq<char>>)
    ensures
        match first_trimmed(all) {
            Some(line) => exists|k: int| #[trigger] says_first(all, k) && line == trim(all[k]),
            None => forall|k: int| 0 <= k < all.len() ==> trim(#[trigger] all[k]).len() == 0,
        },
    decreases all.len(),
{
    if all.len() > 0 {
        if trim(all[0]).len() > 0 {
            assert(says_first(all, 0));
        } else {
            let rest = all.drop_first();
            law_what_is_said_first_is_the_first_written_line(rest);
            if let Some(line) = first_trimmed(rest) {
                let k = choose|k: int| #[trigger] says_first(rest, k) && line == trim(rest[k]);
                assert forall|j: int| 0 <= j < k + 1 implies trim(#[trigger] all[j]).len() == 0 by {
                    if j > 0 {
                        assert(all[j] == rest[j - 1]);
                    }
                }
                assert(all[k + 1] == rest[k]);
                assert(says_first(all, k + 1));
            } else {
                assert forall|k: int| 0 <= k < all.len() implies trim(#[trigger] all[k]).len()
                    == 0 by {
                    if k > 0 {
                        assert(all[k] == rest[k - 1]);
                    }
                }
            }
        }
    }
}

/// The first line that is not blank decides, wherever it stands.
pub proof fn lemma_said_first(all: Seq<Seq<char>>, k: int)
    requires
        says_first(all, k),
    ensures
        first_trimmed(all) == Some(trim(all[k])),
{
    law_what_is_said_first_is_the_first_written_line(all);
    if let Some(line) = first_trimmed(all) {
        let other = choose|i: int| #[trigger] says_first(all, i) && line == trim(all[i]);
        assert(other == k) by {
            if other < k {
                assert(trim(all[other]).len() == 0);
            }
            if k < other {
                assert(trim(all[k]).len() == 0);
            }
        }
    }
}

/// The subject of the merge of a pull request.
pub open spec fn merge_subject(number: u64, branch: Seq<char>) -> Seq<char> {
    "Merge pull request #"@ + decimal(number as nat) + " from "@ + branch
}

/// How a bullet refers to a pull request.
pub open spec fn plain_reference(number: u64) -> Seq<char> {
    "- #"@ + decimal(number as nat) + "\n\n  "@
}

/// A subject that names a pull request and its branch gives both back.
pub proof fn law_merged_pull_requests_are_recognized(number: u64, branch: Seq<char>)
    ensures
        pull_request_of(merge_subject(number, branch)) == Some((number, branch)),
{
    reveal_strlit("Merge pull request #");
    reveal_strlit(" from ");
    let written = decimal(number as nat);
    law_decimal_round_trip(number as nat);
    law_written_numbers_are_read_back(number, written);
    let prefix = "Merge pull request #"@;
    let needle = " from "@;
    let subject = merge_subject(number, branch);
    let rest = subject.skip(prefix.len() as int);
    assert(prefix.is_prefix_of(subject));
    assert(rest =~= written + needle + branch);
    let k = written.len() as int;
    assert(rest.subrange(k, k + needle.len()) =~= needle);
    assert forall|j: int| 0 <= j < k implies !#[trigger] stands_at(rest, needle, j) by {
        if stands_at(rest, needle, j) {
            assert(rest.subrange(j, j + needle.len())[0] == rest[j]);
            assert(rest[j] == written[j]);
            assert(is_digit(written[j]));
        }
    }
    lemma_found_at(rest, needle, k);
    assert(rest.take(k) =~= written);
    assert(rest.skip(k + needle.len()) =~= branch);
}

/// Only a subject that reads so names a pull request.
pub proof fn law_other_subjects_name_no_pull_request(subject: Seq<char>)
    ensures
        pull_request_of(subject) matches Some((number, branch)) ==> exists|written: Seq<char>|
            unsigned_value(written) == Some(number) && #[trigger] ("Merge pull request #"@ + written
                + " from "@ + branch) == subject,
{
    let prefix = "Merge pull request #"@;
    if let Some((number, branch)) = pull_request_of(subject) {
        let rest = subject.skip(prefix.len() as int);
        law_a_split_is_at_the_first_occurrence(rest, " from "@);
        let written = (split_once(rest, " from "@)->0).0;
        assert(prefix + rest =~= subject);
        assert(prefix + written + " from "@ + branch =~= prefix + (written + " from "@ + branch));
    }
}

proof fn lemma_record_parts(subject: Seq<char>, body: Seq<char>)
    requires
        !subject.contains('\u{1f}'),
    ensures
        split_once(subject + seq!['\u{1f}'] + body, "\u{1f}"@) == Some((subject, body)),
        split_once(subject, "\u{1f}"@) is None,
{
    reveal_strlit("\u{1f}");
    let mark = "\u{1f}"@;
    assert(mark =~= seq!['\u{1f}']);
    let record = subject + mark + body;
    let k = subject.len() as int;
    assert(record.subrange(k, k + 1) =~= mark);
    assert forall|j: int| 0 <= j < k implies !#[trigger] stands_at(record, mark, j) by {
        if stands_at(record, mark, j) {
            assert(record.subrange(j, j + 1)[0] == record[j]);
            assert(subject[j] == '\u{1f}');
        }
    }
    lemma_found_at(record, mark, k);
    assert(record.take(k) =~= subject);
    assert(record.skip(k + 1) =~= body);
    law_the_first_occurrence_is_found(subject, mark);
    if let Some(i) = find(subject, mark) {
        assert(subject.subrange(i, i + 1)[0] == subject[i]);
    }
}

proof fn lemma_tight(s: Seq<char>)
    requires
        is_tight(s),
    ensures
        trim(s) == s,
{
    let none = Seq::<char>::empty();
    law_a_padded_text_is_trimmed_to_itself(none, s, none);
    assert(none + s + none =~= s);
}

proof fn lemma_subject_is_tight(number: u64, branch: Seq<char>)
    requires
        branch.len() > 0,
        !is_space(branch.last()),
    ensures
        trim(merge_subject(number, branch)) == merge_subject(number, branch),
        !branch.contains('\u{1f}') ==> !merge_subject(number, branch).contains('\u{1f}'),
{
    reveal_strlit("Merge pull request #");
    reveal_strlit(" from ");
    let subject = merge_subject(number, branch);
    let written = decimal(number as nat);
    law_decimal_round_trip(number as nat);
    assert(subject[0] == 'M');
    assert(subject.last() == branch.last());
    lemma_tight(subject);
    if subject.contains('\u{1f}') {
        let i = choose|i: int| 0 <= i < subject.len() && subject[i] == '\u{1f}';
        let a = "Merge pull request #"@.len() as int;
        let b = a + written.len();
        let c = b + " from "@.len();
        if i < a {
            assert(subject[i] == "Merge pull request #"@[i]);
        } else if i < b {
            assert(subject[i] == written[i - a]);
            assert(is_digit(written[i - a]));
        } else if i < c {
            assert(subject[i] == " from "@[i - b]);
        } else {
            assert(branch[i - c] == '\u{1f}');
        }
    }
}

/// The bullet of a merged pull request refers to it and says what the body of
/// the merge says first; where the body says nothing, it says what stands
/// behind the last `/` of the branch.
pub proof fn law_a_merge_is_told_by_its_body(
    number: u64,
    branch: Seq<char>,
    body: Seq<char>,
    k: int,
)
    requires
        branch.len() > 0,
        !is_space(branch.last()),
        !branch.contains('\u{1f}'),
    ensures
        says_first(lines(body), k) ==> record_bullet(
            merge_subject(number, branch) + seq!['\u{1f}'] + body,
            None,
        ) == plain_reference(number) + trim(lines(body)[k]),
        (forall|i: int| 0 <= i < lines(body).len() ==> trim(#[trigger] lines(body)[i]).len() == 0)
            ==> record_bullet(merge_subject(number, branch) + seq!['\u{1f}'] + body, None)
            == plain_reference(number) + after_last(branch, '/'),
{
    lemma_subject_is_tight(number, branch);
    let subject = merge_subject(number, branch);
    lemma_record_parts(subject, body);
    law_merged_pull_requests_are_recognized(number, branch);
    law_what_is_said_first_is_the_first_written_line(lines(body));
    if says_first(lines(body), k) {
        lemma_said_first(lines(body), k);
    }
    lemma_reference(number);
    assert(forall|summary: Seq<char>|
        "- "@ + ("#"@ + decimal(number as nat)) + "\n\n  "@ + summary == #[trigger] (
        plain_reference(number) + summary));
}

proof fn lemma_reference(number: u64)
    ensures
        "- "@ + ("#"@ + decimal(number as nat)) + "\n\n  "@ == plain_reference(number),
{
    reveal_strlit("- ");
    reveal_strlit("#");
    reveal_strlit("- #");
    assert("- "@ + "#"@ =~= "- #"@);
    assert("- "@ + ("#"@ + decimal(number as nat)) + "\n\n  "@ =~= plain_reference(number));
}

/// The bullet of any other merge says what the body says first, or else the
/// subject.
pub proof fn law_any_other_merge_is_told_by_body_or_subject(
    subject: Seq<char>,
    body: Seq<char>,
    k: int,
    url: Option<Seq<char>>,
)
    requires
        !subject.contains('\u{1f}'),
        pull_request_of(trim(subject)) is None,
    ensures
        says_first(lines(body), k) ==> record_bullet(subject + seq!['\u{1f}'] + body, url) == "- "@
            + trim(lines(body)[k]),
        (forall|i: int| 0 <= i < lines(body).len() ==> trim(#[trigger] lines(body)[i]).len() == 0)
            ==> record_bullet(subject + seq!['\u{1f}'] + body, url) == "- "@ + trim(subject),
        record_bullet(subject, url) == "- "@ + trim(subject),
{
    lemma_record_parts(subject, body);
    law_what_is_said_first_is_the_first_written_line(lines(body));
    if says_first(lines(body), k) {
        lemma_said_first(lines(body), k);
    }
    reveal_strlit("");
    assert(""@ =~= Seq::<char>::empty());
    assert(lines(""@) =~= Seq::<Seq<char>>::empty());
}

/// A link to a pull request is the template with the number in its place.
pub proof fn law_a_linked_merge_has_the_number_in_its_link(
    number: u64,
    branch: Seq<char>,
    body: Seq<char>,
    before: Seq<char>,
    after: Seq<char>,
    k: int,
)
    requires
        branch.len() > 0,
        !is_space(branch.last()),
        !branch.contains('\u{1f}'),
        says_first(lines(body), k),
        forall|j: int| 0 <= j < before.len() ==> !#[trigger] stands_at(
            before + "{number}"@ + after,
            "{number}"@,
            j,
        ),
        forall|j: int| !#[trigger] stands_at(after, "{number}"@, j),
    ensures
        record_bullet(
            merge_subject(number, branch) + seq!['\u{1f}'] + body,
            Some(before + "{number}"@ + after),
        ) == "- [#"@ + decimal(number as nat) + "]("@ + before + decimal(number as nat) + after
            + ")\n\n  "@ + trim(lines(body)[k]),
{
    lemma_subject_is_tight(number, branch);
    lemma_record_parts(merge_subject(number, branch), body);
    law_merged_pull_requests_are_recognized(number, branch);
    lemma_said_first(lines(body), k);
    let written = decimal(number as nat);
    reveal_strlit("{number}");
    law_every_occurrence_is_replaced(before, after, "{number}"@, written);
    let summary = trim(lines(body)[k]);
    reveal_strlit("- ");
    reveal_strlit("[#");
    reveal_strlit("- [#");
    reveal_strlit(")");
    reveal_strlit("\n\n  ");
    reveal_strlit(")\n\n  ");
    assert("- "@ + "[#"@ =~= "- [#"@);
    assert(")"@ + "\n\n  "@ =~= ")\n\n  "@);
    let link = before + written + after;
    assert("- "@ + ("[#"@ + written + "]("@ + link + ")"@) + "\n\n  "@ + summary =~= ("- "@
        + "[#"@) + written + "]("@ + before + written + after + (")"@ + "\n\n  "@) + summary);
}

/// Whether `written` holds those of `records` that are not blank, in order.
pub open spec fn are_written(written: Seq<Seq<char>>, records: Seq<Seq<char>>) -> bool {
    is_picked(written, records, |r: Seq<char>| trim(r).len() > 0)
}

/// Every record of a merge log that is not blank gives one bullet, in the order
/// of the log.
pub proof fn law_each_merge_gives_one_bullet(records: Seq<Seq<char>>, url: Option<Seq<char>>)
    ensures
        exists|written: Seq<Seq<char>>| #[trigger]
            are_written(written, records) && git_bullets(records, url) == written.map_values(
                |r: Seq<char>| record_bullet(trim(r), url),
            ),
    decreases records.len(),
{
    let keep = |r: Seq<char>| trim(r).len() > 0;
    let told = |r: Seq<char>| record_bullet(trim(r), url);
    if records.len() == 0 {
        lemma_picked_none(keep);
        let none = Seq::<Seq<char>>::empty();
        assert(records =~= none);
        assert(git_bullets(records, url) =~= none.map_values(told));
        assert(are_written(none, records));
    } else {
        let front = records.drop_last();
        law_each_merge_gives_one_bullet(front, url);
        let written = choose|written: Seq<Seq<char>>| #[trigger]
            are_written(written, front) && git_bullets(front, url) == written.map_values(
                |r: Seq<char>| record_bullet(trim(r), url),
            );
        lemma_picked_more(written, records, keep);
        if keep(records.last()) {
            let more = written.push(records.last());
            assert(git_bullets(records, url) =~= more.map_values(told));
            assert(are_written(more, records));
        } else {
            assert(are_written(written, records));
        }
    }
}

/// Whether an entry says no more than when it was released: it is blank, or its
/// first line gives the date and the other lines are blank.
pub open spec fn says_only_its_date(body: Seq<char>) -> bool {
    let all = lines(trim(body));
    all.len() == 0 || ("Released: "@.is_prefix_of(all[0]) && forall|k: int|
        0 < k < all.len() ==> trim(#[trigger] all[k]).len() == 0)
}

/// The notes of a heading are those of the first entry that carries it, below
/// its name; there are none where no entry carries it, or where that entry says
/// no more than its date.
pub proof fn law_notes_are_of_the_first_entry_with_the_heading(
    entries: Seq<EntryView>,
    heading: Heading,
    i: int,
)
    requires
        0 <= i < entries.len() ==> entries[i].heading == heading,
        0 <= i <= entries.len(),
        forall|j: int| 0 <= j < i ==> (#[trigger] entries[j]).heading != heading,
    ensures
        notes_of(entries, heading) == (if i == entries.len() {
            Err::<Seq<char>, Seq<char>>("entry `"@ + heading_text(heading) + "` was not found"@)
        } else if says_only_its_date(entries[i].body) {
            Err(
                "entry `"@ + heading_text(heading)
                    + "` is empty or contains only its `Released:` line"@,
            )
        } else {
            Ok(
                "# "@ + heading_name(heading) + "\n\n## Changelog\n\n"@ + trim(entries[i].body)
                    + "\n"@,
            )
        }),
    decreases entries.len(),
{
    if entries.len() > 0 {
        if i == 0 {
            let all = lines(trim(entries[0].body));
            let rest = all.drop_first();
            law_what_is_said_first_is_the_first_written_line(rest);
            if all.len() > 0 {
                if first_trimmed(rest) is None {
                    assert forall|k: int| 0 < k < all.len() implies trim(#[trigger] all[k]).len()
                        == 0 by {
                        assert(all[k] == rest[k - 1]);
                    }
                } else {
                    let k = choose|k: int| #[trigger] says_first(rest, k);
                    assert(all[k + 1] == rest[k]);
                }
            }
        } else {
            let rest = entries.drop_first();
            assert(entries[0].heading != heading);
            assert forall|j: int| 0 <= j < i - 1 implies (#[trigger] rest[j]).heading != heading by {
                assert(rest[j] == entries[j + 1]);
            }
            law_notes_are_of_the_first_entry_with_the_heading(rest, heading, i - 1);
        }
    }
}

/// A version and a release tag make a target exactly where each that is given
/// can be read and both, where both are given, say the same.
pub proof fn law_version_and_tag_have_to_agree(
    version: Option<Seq<char>>,
    release_tag: Option<Seq<char>>,
)
    ensures
        parse_target(version, release_tag) is Ok <==> (version matches Some(text) ==> parse_request(
            text,
        ) is Ok) && (release_tag matches Some(text) ==> parse_request(text) is Ok) && (version is Some
            && release_tag is Some ==> parse_request(version->0) == parse_request(release_tag->0)),
        parse_target(version, release_tag) matches Ok(target) ==> {
            &&& version matches Some(text) ==> target.wanted() matches Some(request)
                && parse_request(text) == Ok::<_, Seq<char>>(request)
            &&& release_tag matches Some(text) ==> target.wanted() matches Some(request)
                && parse_request(text) == Ok::<_, Seq<char>>(request)
            &&& version is None && release_tag is None ==> target.wanted() is None
        },
{
}

/// A message that is cut short depends on no more than the limit, and says so
/// with its last character; one that is short enough is whole.
pub proof fn law_long_messages_are_cut_and_marked(a: Seq<u8>, b: Seq<u8>, limit: nat)
    ensures
        a.len() <= limit ==> bounded(a, limit) == trim(lossy(a)),
        a.len() > limit ==> bounded(a, limit).last() == '\u{2026}' && bounded(a, limit).drop_last()
            == trim(lossy(a.take(limit as int))),
        a.len() > limit && b.len() > limit && a.take(limit as int) == b.take(limit as int)
            ==> bounded(a, limit) == bounded(b, limit),
{
    if a.len() > limit {
        assert(bounded(a, limit).drop_last() =~= trim(lossy(a.take(limit as int))));
    }
}

/// There is a merge log exactly where Git ran, succeeded and printed no more
/// than the limit: it is then all that Git printed.
pub proof fn law_a_merge_log_is_all_that_git_printed(
    from: Seq<char>,
    to: Seq<char>,
    output: Result<GitOutput, IoError>,
)
    ensures
        merge_log(from, to, output) is Ok <==> output is Ok && (output->Ok_0).success && (
        output->Ok_0).stdout@.len() <= 10 * 1024 * 1024,
        merge_log(from, to, output) matches Ok(log) ==> log == lossy((output->Ok_0).stdout@),
{
}

/// Merges are read only between two names of revisions that no option can be
/// mistaken for, and linked only by a template with a place for the number.
pub proof fn law_git_is_asked_for_named_revisions_only(
    from: Seq<char>,
    to: Seq<char>,
    url: Option<Seq<char>>,
)
    ensures
        git_request_problem(from, to, url) is None ==> {
            &&& from.len() > 0 && from[0] != '-' && to.len() > 0 && to[0] != '-'
            &&& forall|i: int| 0 <= i < from.len() ==> !is_space(#[trigger] from[i])
            &&& forall|i: int| 0 <= i < to.len() ==> !is_space(#[trigger] to[i])
            &&& !from.contains('\0') && !to.contains('\0')
            &&& url matches Some(template) ==> exists|j: int| #[trigger]
                stands_at(template, "{number}"@, j)
        },
        is_ref(from) && is_ref(to) && (url matches Some(template) ==> exists|j: int| #[trigger]
            stands_at(template, "{number}"@, j)) ==> git_request_problem(from, to, url) is None,
{
    if let Some(template) = url {
        law_the_first_occurrence_is_found(template, "{number}"@);
    }
    if git_request_problem(from, to, url) is None {
        let blank = |c: char| is_space(c);
        assert forall|i: int| 0 <= i < from.len() implies !is_space(#[trigger] from[i]) by {
            if blank(from[i]) {
                assert(crate::text::any(from, blank));
            }
        }
        assert forall|i: int| 0 <= i < to.len() implies !is_space(#[trigger] to[i]) by {
            if blank(to[i]) {
                assert(crate::text::any(to, blank));
            }
        }
    }
}

/// Preparing an entry succeeds exactly where the changelog can be read, the date
/// is one, the version, where one is asked for, can be read or else the newest
/// entry can be counted on from, and no entry has that heading yet.
pub proof fn law_an_entry_is_prepared_where_it_can_be(
    path: Seq<char>,
    read: Result<String, IoError>,
    version: Option<Seq<char>>,
    date: Seq<char>,
    bullets: Seq<Seq<char>>,
)
    ensures
        prepared(path, read, version, date, bullets) is Ok <==> (read matches Ok(text)
            && parse_changelog(text@) matches Ok(changelog) && is_date(date) && (asked_for(
            changelog,
            version,
        ) matches Some(request) && forall|i: int|
            0 <= i < changelog.entries.len() ==> (#[trigger] changelog.entries[i]).heading
                != request_heading(request))),
{
    if let Ok(text) = read {
        if let Ok(changelog) = parse_changelog(text@) {
            if let Some(request) = asked_for(changelog, version) {
                law_scaffolding_changes_only_the_top(changelog, request, date, bullets);
            }
        }
    }
}

/// The entry that is asked for: that of the version, or else of the version that
/// follows the newest one.
pub open spec fn asked_for(changelog: ChangelogView, version: Option<Seq<char>>) -> Option<
    Request,
> {
    match version {
        Some(version) => match parse_request(version) {
            Ok(request) => Some(request),
            Err(_) => None,
        },
        None => match following_version(changelog) {
            Ok(version) => Some(Request::Version(version)),
            Err(_) => None,
        },
    }
}

/// A prepared changelog begins as it began, and then has the entry, with its
/// date and every bullet, above everything that was there; only where a version
/// takes the place of an unreleased entry is nothing but the heading changed.
pub proof fn law_a_prepared_entry_stands_on_top(
    path: Seq<char>,
    text: String,
    version: Option<Seq<char>>,
    date: Seq<char>,
    bullets: Seq<Seq<char>>,
    changelog: ChangelogView,
    request: Request,
)
    requires
        parse_changelog(text@) == Ok::<ChangelogView, Seq<char>>(changelog),
        asked_for(changelog, version) == Some(request),
    ensures
        prepared(path, Ok(text), version, date, bullets) matches Ok(done) ==> {
            let rest = rendered(ChangelogView { preamble: Seq::empty(), ..changelog });
            let older = rendered(
                ChangelogView { preamble: Seq::empty(), entries: changelog.entries.drop_first() },
            );
            let heading = heading_text(request_heading(request)) + seq!['\n'];
            if request is Version && changelog.entries[0].heading == Heading::Unreleased {
                done.contents == changelog.preamble + heading + changelog.entries[0].body + older
            } else {
                done.contents == changelog.preamble + heading + new_body(date, bullets) + rest
            }
        },
{
    if let Ok(done) = prepared(path, Ok(text), version, date, bullets) {
        law_scaffolding_changes_only_the_top(changelog, request, date, bullets);
        let (after, action) = scaffolded(changelog, request, date, bullets)->Ok_0;
        let top = after.entries[0];
        let below = after.entries.drop_first();
        let none = Seq::<EntryView>::empty();
        law_entries_are_written_one_after_the_other(changelog.preamble, none, top, below);
        assert(none + seq![top] + below =~= after.entries);
        assert(rendered(ChangelogView { preamble: changelog.preamble, entries: none })
            == changelog.preamble);
        let heading = heading_text(top.heading) + seq!['\n'];
        let tail = rendered(ChangelogView { preamble: Seq::empty(), entries: below });
        assert(changelog.preamble + heading_text(top.heading) + seq!['\n'] + top.body + tail
            =~= changelog.preamble + heading + top.body + tail);
    }
}

/// An entry that is prepared from Git is the one that is prepared from the
/// bullets of its merges; a request that Git cannot be asked, or a log that
/// could not be had, is refused.
pub proof fn law_git_bullets_become_the_entry(
    path: Seq<char>,
    read: Result<String, IoError>,
    version: Option<Seq<char>>,
    date: Seq<char>,
    from: Seq<char>,
    to: Seq<char>,
    url: Option<Seq<char>>,
    log: Result<Seq<char>, ChangelogFault>,
)
    ensures
        prepared_from_git(path, read, version, date, from, to, url, log) matches Ok(done) ==> {
            &&& git_request_problem(from, to, url) is None
            &&& log matches Ok(text) && prepared(
                path,
                read,
                version,
                date,
                git_bullets(split(text, '\u{1e}'), url),
            ) matches Ok(plain) && done.contents == plain.contents && plain.message.is_prefix_of(
                done.message,
            )
        },
        git_request_problem(from, to, url) is None && (log matches Ok(text) && prepared(
            path,
            read,
            version,
            date,
            git_bullets(split(text, '\u{1e}'), url),
        ) is Ok) ==> prepared_from_git(path, read, version, date, from, to, url, log) is Ok,
{
    if let Ok(done) = prepared_from_git(path, read, version, date, from, to, url, log) {
        let text = log->Ok_0;
        let plain = prepared(path, read, version, date, git_bullets(split(text, '\u{1e}'), url))->Ok_0;
        assert(plain.message =~= done.message.subrange(0, plain.message.len() as int));
    }
}

} // verus!
