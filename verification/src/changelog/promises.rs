//! What is promised of versions, entries and dates.

use vstd::prelude::*;

use crate::changelog::date::{
    date_text, days_in_month, days_of_civil, days_to_march, is_civil, is_date, is_leap, zero_padded,
};
use crate::changelog::{
    bullet_lines, entries_problem, entries_text, entry_problem, entry_text, first_written,
    following_version, heading_text, is_release_line, law_version_round_trip,
    law_versions_are_strict, new_body, parse_changelog, parse_request, parse_version, rendered,
    request_heading, scaffolded, trim_line_ends, version_before, version_lt, version_text, Action,
    ChangelogView, EntryView, Heading, Request, Version,
};
use crate::text::{
    all_digits, all_space, decimal, decimal_value, is_digit, join,
    law_a_padded_text_is_trimmed_to_itself, law_decimal_round_trip, law_numeral_round_trip, lines,
    trim,
};

verus! {

/// Of two different versions one is older, and never both; what is older than
/// an older version is older.
pub proof fn law_versions_are_ordered(a: Version, b: Version, c: Version)
    ensures
        !version_lt(a, a),
        a != b ==> version_lt(a, b) || version_lt(b, a),
        !(version_lt(a, b) && version_lt(b, a)),
        version_lt(a, b) && version_lt(b, c) ==> version_lt(a, c),
        a.major < b.major ==> version_lt(a, b),
        a.major == b.major && a.minor < b.minor ==> version_lt(a, b),
        a.major == b.major && a.minor == b.minor && a.patch < b.patch ==> version_lt(a, b),
{
}

/// The next version is the first that is newer than the newest entry; there is
/// one wherever that entry has a version that can be counted on.
pub proof fn law_the_next_version_follows_directly(changelog: ChangelogView, between: Version)
    requires
        changelog.entries.len() > 0,
    ensures
        match following_version(changelog) {
            Ok(next) => changelog.entries[0].heading matches Heading::Version(newest) && version_lt(
                newest,
                next,
            ) && !(version_lt(newest, between) && version_lt(between, next)),
            Err(_) => changelog.entries[0].heading matches Heading::Version(newest) ==> newest.patch
                == u64::MAX,
        },
        changelog.entries[0].heading matches Heading::Version(newest) && newest.patch < u64::MAX
            ==> following_version(changelog) is Ok,
{
}

/// A request for a version is its text, with a `v` before it or without and
/// with white space around it or without; nothing else asks for a version.
pub proof fn law_versions_can_be_asked_for(
    version: Version,
    before: Seq<char>,
    after: Seq<char>,
    text: Seq<char>,
)
    requires
        all_space(before),
        all_space(after),
    ensures
        parse_request(before + version_text(version) + after) == Ok::<Request, Seq<char>>(
            Request::Version(version),
        ),
        parse_request(before + (seq!['v'] + version_text(version)) + after) == Ok::<
            Request,
            Seq<char>,
        >(Request::Version(version)),
        parse_request(before + "unreleased"@ + after) == Ok::<Request, Seq<char>>(
            Request::Unreleased,
        ),
        parse_request(text) == Ok::<Request, Seq<char>>(Request::Version(version)) ==> trim(text)
            == version_text(version) || trim(text) == seq!['v'] + version_text(version),
        parse_request(text) == Ok::<Request, Seq<char>>(Request::Unreleased) ==> trim(text)
            == "unreleased"@ || trim(text) == seq!['v'] + "unreleased"@,
{
    let written = version_text(version);
    law_version_round_trip(version);
    lemma_version_is_tight(version);
    reveal_strlit("unreleased");
    law_a_padded_text_is_trimmed_to_itself(before, written, after);
    let marked = seq!['v'] + written;
    law_a_padded_text_is_trimmed_to_itself(before, marked, after);
    assert(marked.skip(1) =~= written);
    law_a_padded_text_is_trimmed_to_itself(before, "unreleased"@, after);
    let t = trim(text);
    if t.len() > 0 && t[0] == 'v' {
        assert(t =~= seq!['v'] + t.skip(1));
        if parse_version(t.skip(1)) is Some {
            law_versions_are_strict(t.skip(1));
        }
    } else if parse_version(t) is Some {
        law_versions_are_strict(t);
    }
}

proof fn lemma_version_is_tight(version: Version)
    ensures
        version_text(version).len() > 0,
        is_digit(version_text(version)[0]),
        is_digit(version_text(version).last()),
{
    law_decimal_round_trip(version.major as nat);
    law_decimal_round_trip(version.patch as nat);
    let text = version_text(version);
    assert(text[0] == decimal(version.major as nat)[0]);
    assert(text.last() == decimal(version.patch as nat).last());
}

/// Scaffolding succeeds exactly with a valid date and a heading that is not
/// there yet. It puts the entry on top: a version takes the place of an
/// unreleased entry on top and keeps what that says, and anything else is a new
/// entry. Every other entry stays as it was.
pub proof fn law_scaffolding_changes_only_the_top(
    changelog: ChangelogView,
    request: Request,
    date: Seq<char>,
    bullets: Seq<Seq<char>>,
)
    ensures
        scaffolded(changelog, request, date, bullets) is Ok <==> is_date(date) && forall|i: int|
            0 <= i < changelog.entries.len() ==> (#[trigger] changelog.entries[i]).heading
                != request_heading(request),
        scaffolded(changelog, request, date, bullets) matches Ok((after, action)) ==> {
            &&& after.preamble == changelog.preamble
            &&& after.entries.len() > 0
            &&& after.entries[0].heading == request_heading(request)
            &&& if request is Version && changelog.entries.len() > 0 && changelog.entries[0].heading
                == Heading::Unreleased {
                &&& action == (Action::Renamed {
                    from: Heading::Unreleased,
                    to: request_heading(request),
                })
                &&& after.entries[0].body == changelog.entries[0].body
                &&& after.entries.drop_first() == changelog.entries.drop_first()
            } else {
                &&& action == Action::Inserted
                &&& after.entries[0].body == new_body(date, bullets)
                &&& after.entries.drop_first() == changelog.entries
            }
        },
{
    if let Ok((after, action)) = scaffolded(changelog, request, date, bullets) {
        if request is Version && changelog.entries.len() > 0 && changelog.entries[0].heading
            == Heading::Unreleased {
            assert(after.entries.drop_first() =~= changelog.entries.drop_first());
        } else {
            assert(after.entries.drop_first() =~= changelog.entries);
        }
    }
}

/// A new entry begins with its date, which no blank line precedes, and lists
/// every bullet, in order and each on a line of its own.
pub proof fn law_a_new_entry_lists_its_date_and_bullets(date: Seq<char>, bullets: Seq<Seq<char>>)
    ensures
        ("Released: "@ + date + seq!['\n']).is_prefix_of(new_body(date, bullets)),
        bullets.len() > 0 ==> ("Released: "@ + date + seq!['\n', '\n'] + join(bullets, seq!['\n'])
            + seq!['\n']).is_prefix_of(new_body(date, bullets)),
{
    reveal_strlit("\n");
    assert("\n"@ =~= seq!['\n']);
    let tail = "\n### Features\n\n-\n\n### Fixes\n\n-\n\n### Internals\n\n-\n\n"@;
    let head = "Released: "@ + date;
    if bullets.len() == 0 {
        assert(new_body(date, bullets) =~= head + seq!['\n'] + tail);
        assert((head + seq!['\n']).is_prefix_of(new_body(date, bullets)));
    } else {
        lemma_bullet_lines(bullets);
        let listed = join(bullets, seq!['\n']);
        let start = head + seq!['\n', '\n'] + listed + seq!['\n'];
        assert(new_body(date, bullets) =~= start + tail);
        assert(start.is_prefix_of(start + tail));
        assert((head + seq!['\n']).is_prefix_of(start + tail));
    }
}

proof fn lemma_bullet_lines(bullets: Seq<Seq<char>>)
    requires
        bullets.len() > 0,
    ensures
        bullet_lines(bullets) == join(bullets, seq!['\n']) + seq!['\n'],
    decreases bullets.len(),
{
    reveal_strlit("\n");
    assert("\n"@ =~= seq!['\n']);
    let front = bullets.drop_last();
    if bullets.len() == 1 {
        assert(bullet_lines(front) =~= Seq::<char>::empty());
        assert(bullet_lines(bullets) =~= bullets[0] + seq!['\n']);
    } else {
        lemma_bullet_lines(front);
        assert(bullet_lines(bullets) =~= join(bullets, seq!['\n']) + seq!['\n']);
    }
}

/// A changelog is written as what stands before its entries and then each
/// entry, its heading on one line and its body below, in order.
pub proof fn law_entries_are_written_one_after_the_other(
    preamble: Seq<char>,
    above: Seq<EntryView>,
    entry: EntryView,
    below: Seq<EntryView>,
)
    ensures
        rendered(ChangelogView { preamble, entries: above + seq![entry] + below }) == rendered(
            ChangelogView { preamble, entries: above },
        ) + heading_text(entry.heading) + seq!['\n'] + entry.body + rendered(
            ChangelogView { preamble: Seq::empty(), entries: below },
        ),
        rendered(ChangelogView { preamble, entries: Seq::empty() }) == preamble,
{
    reveal_strlit("\n");
    assert("\n"@ =~= seq!['\n']);
    lemma_entries_text(above + seq![entry], below);
    assert((above + seq![entry]).drop_last() =~= above);
    assert(entries_text(above + seq![entry]) == entries_text(above) + entry_text(entry));
    let rest = rendered(ChangelogView { preamble: Seq::empty(), entries: below });
    assert(rest =~= entries_text(below));
    assert(preamble + (entries_text(above) + (heading_text(entry.heading) + seq!['\n'] + entry.body)
        + entries_text(below)) =~= (preamble + entries_text(above)) + heading_text(entry.heading)
        + seq!['\n'] + entry.body + rest);
    assert(preamble + entries_text(Seq::empty()) =~= preamble);
}

proof fn lemma_entries_text(a: Seq<EntryView>, b: Seq<EntryView>)
    ensures
        entries_text(a + b) == entries_text(a) + entries_text(b),
    decreases b.len(),
{
    if b.len() == 0 {
        assert(a + b =~= a);
        assert(entries_text(a) + entries_text(b) =~= entries_text(a));
    } else {
        lemma_entries_text(a, b.drop_last());
        assert((a + b).drop_last() =~= a + b.drop_last());
        assert(entries_text(a + b) =~= entries_text(a) + (entries_text(b.drop_last()) + entry_text(
            b.last(),
        )));
    }
}

/// Whether line `k` is the first of `all` that is not blank.
pub open spec fn is_first_written(all: Seq<Seq<char>>, k: int) -> bool {
    &&& 0 <= k < all.len()
    &&& trim(all[k]).len() > 0
    &&& forall|j: int| 0 <= j < k ==> trim(#[trigger] all[j]).len() == 0
}

proof fn lemma_first_written(all: Seq<Seq<char>>)
    ensures
        match first_written(all) {
            Some(line) => exists|k: int| #[trigger] is_first_written(all, k) && line == all[k],
            None => forall|k: int| 0 <= k < all.len() ==> trim(#[trigger] all[k]).len() == 0,
        },
    decreases all.len(),
{
    if all.len() > 0 {
        if trim(all[0]).len() > 0 {
            assert(is_first_written(all, 0));
        } else {
            let rest = all.drop_first();
            lemma_first_written(rest);
            if let Some(line) = first_written(rest) {
                let k = choose|k: int| #[trigger] is_first_written(rest, k) && line == rest[k];
                assert forall|j: int| 0 <= j < k + 1 implies trim(#[trigger] all[j]).len() == 0 by {
                    if j > 0 {
                        assert(all[j] == rest[j - 1]);
                    }
                }
                assert(all[k + 1] == rest[k]);
                assert(is_first_written(all, k + 1));
            } else {
                assert forall|k: int| 0 <= k < all.len() implies trim(#[trigger] all[k]).len()
                    == 0 by {
                    if k > 0 {
                        assert(all[k] == rest[k - 1]);
                    }
                }
            }
        }
    }
}

/// Whether the first line of `body` that is not blank says when something was
/// released.
pub open spec fn says_when_released(body: Seq<char>) -> bool {
    exists|k: int, date: Seq<char>|
        #![trigger is_first_written(lines(body), k), is_date(date)]
        is_first_written(lines(body), k) && is_date(date) && lines(body)[k] == "Released: "@ + date
}

/// Whether the entries are in order: an unreleased one only on top, and every
/// version older than those above it.
pub open spec fn newest_first(entries: Seq<EntryView>) -> bool {
    forall|i: int, j: int|
        0 <= i < j < entries.len() ==> match (
            (#[trigger] entries[i]).heading,
            (#[trigger] entries[j]).heading,
        ) {
            (Heading::Version(newer), Heading::Version(older)) => version_lt(older, newer),
            (_, Heading::Unreleased) => false,
            _ => true,
        }
}

/// Entries are accepted exactly where they stand newest first, with an
/// unreleased one only on top, and each version begins with its date.
pub proof fn law_accepted_entries_are_dated_and_newest_first(entries: Seq<EntryView>)
    ensures
        entries_problem(entries, entries.len()) is None <==> newest_first(entries) && forall|i: int|
            0 <= i < entries.len() && (#[trigger] entries[i]).heading is Version
                ==> says_when_released(entries[i].body),
{
    lemma_entries_problem(entries, entries.len());
    if entries_problem(entries, entries.len()) is None {
        assert forall|i: int|
            0 <= i < entries.len() && (#[trigger] entries[i]).heading is Version implies
            says_when_released(entries[i].body) by {
            assert(entry_problem(entries, i) is None);
            lemma_dated(entries[i].body);
        }
        assert forall|i: int, j: int| 0 <= i < j < entries.len() implies match (
            (#[trigger] entries[i]).heading,
            (#[trigger] entries[j]).heading,
        ) {
            (Heading::Version(newer), Heading::Version(older)) => version_lt(older, newer),
            (_, Heading::Unreleased) => false,
            _ => true,
        } by {
            assert(entry_problem(entries, j) is None);
            if entries[j].heading is Version && entries[i].heading is Version {
                lemma_older_than_above(entries, j as nat, i);
            }
        }
    }
    if newest_first(entries) && forall|i: int|
        0 <= i < entries.len() && (#[trigger] entries[i]).heading is Version ==> says_when_released(
            entries[i].body,
        ) {
        assert forall|i: int| 0 <= i < entries.len() implies #[trigger] entry_problem(entries, i)
            is None by {
            lemma_dated(entries[i].body);
            lemma_version_before(entries, i as nat);
            if entries[i].heading is Unreleased {
                if i != 0 {
                    assert(entries[0].heading == entries[0].heading);
                }
            }
        }
    }
}

/// A changelog that can be read has entries that are dated and stand newest
/// first.
pub proof fn law_read_entries_are_dated_and_newest_first(text: Seq<char>)
    ensures
        parse_changelog(text) matches Ok(changelog) ==> changelog.entries.len() > 0 && newest_first(
            changelog.entries,
        ) && forall|i: int|
            0 <= i < changelog.entries.len() && (#[trigger] changelog.entries[i]).heading is Version
                ==> says_when_released(changelog.entries[i].body),
{
    if let Ok(changelog) = parse_changelog(text) {
        law_accepted_entries_are_dated_and_newest_first(changelog.entries);
    }
}

proof fn lemma_entries_problem(entries: Seq<EntryView>, count: nat)
    requires
        count <= entries.len(),
    ensures
        entries_problem(entries, count) is None <==> forall|i: int|
            0 <= i < count ==> #[trigger] entry_problem(entries, i) is None,
    decreases count,
{
    if count > 0 {
        lemma_entries_problem(entries, (count - 1) as nat);
    }
}

proof fn lemma_dated(body: Seq<char>)
    ensures
        says_when_released(body) <==> (first_written(lines(body)) matches Some(line)
            && is_release_line(line)),
{
    let all = lines(body);
    let prefix = "Released: "@;
    lemma_first_written(all);
    if says_when_released(body) {
        let (k, date) = choose|k: int, date: Seq<char>|
            #![trigger is_first_written(lines(body), k), is_date(date)]
            is_first_written(lines(body), k) && is_date(date) && lines(body)[k] == "Released: "@
                + date;
        let line = first_written(all)->0;
        let other = choose|i: int| #[trigger] is_first_written(all, i) && line == all[i];
        assert(other == k) by {
            if other < k {
                assert(trim(all[other]).len() == 0);
            }
            if k < other {
                assert(trim(all[k]).len() == 0);
            }
        }
        assert(line.skip(prefix.len() as int) =~= date);
        assert(prefix.is_prefix_of(line));
    }
    if let Some(line) = first_written(all) {
        if is_release_line(line) {
            let date = line.skip(prefix.len() as int);
            assert(prefix + date =~= line);
            let k = choose|k: int| #[trigger] is_first_written(all, k) && line == all[k];
            assert(is_first_written(lines(body), k) && is_date(date));
        }
    }
}

/// The version before an entry is that of the nearest entry above it that has
/// one.
proof fn lemma_version_before(entries: Seq<EntryView>, count: nat)
    requires
        count <= entries.len(),
    ensures
        match version_before(entries, count) {
            Some(version) => exists|k: int|
                0 <= k < count && (#[trigger] entries[k]).heading == Heading::Version(version)
                    && forall|j: int| k < j < count ==> (#[trigger] entries[j]).heading is Unreleased,
            None => forall|k: int| 0 <= k < count ==> (#[trigger] entries[k]).heading is Unreleased,
        },
    decreases count,
{
    if count > 0 {
        lemma_version_before(entries, (count - 1) as nat);
        if entries[count - 1].heading is Version {
            assert(entries[count - 1].heading == entries[count - 1].heading);
        } else if let Some(version) = version_before(entries, (count - 1) as nat) {
            let k = choose|k: int|
                0 <= k < count - 1 && (#[trigger] entries[k]).heading == Heading::Version(version)
                    && forall|j: int|
                    k < j < count - 1 ==> (#[trigger] entries[j]).heading is Unreleased;
            assert(entries[k].heading == Heading::Version(version));
        }
    }
}

proof fn lemma_older_than_above(entries: Seq<EntryView>, count: nat, i: int)
    requires
        0 <= i < count < entries.len(),
        forall|k: int| 0 <= k <= count ==> #[trigger] entry_problem(entries, k) is None,
        entries[i].heading is Version,
        entries[count as int].heading is Version,
    ensures
        version_lt(entries[count as int].heading->Version_0, entries[i].heading->Version_0),
    decreases count,
{
    assert(entry_problem(entries, count as int) is None);
    lemma_version_before(entries, count);
    let previous = version_before(entries, count)->0;
    assert(version_before(entries, count) is Some) by {
        if version_before(entries, count) is None {
            assert(entries[i].heading is Unreleased);
        }
    }
    let k = choose|k: int|
        0 <= k < count && (#[trigger] entries[k]).heading == Heading::Version(previous) && forall|
            j: int,
        |
            k < j < count ==> (#[trigger] entries[j]).heading is Unreleased;
    if k < i {
        assert(entries[i].heading is Unreleased);
    } else if k > i {
        lemma_older_than_above(entries, k as nat, i);
    }
}

/// What is left of a line has no line end behind it, and only line ends were
/// taken away.
pub proof fn law_only_line_ends_are_taken_away(text: Seq<char>)
    ensures
        ({
            let left = trim_line_ends(text);
            &&& left.len() <= text.len()
            &&& left == text.take(left.len() as int)
            &&& left.len() > 0 ==> left.last() != '\n' && left.last() != '\r'
            &&& forall|i: int|
                left.len() <= i < text.len() ==> #[trigger] text[i] == '\n' || text[i] == '\r'
        }),
    decreases text.len(),
{
    if text.len() > 0 && (text.last() == '\n' || text.last() == '\r') {
        let front = text.drop_last();
        law_only_line_ends_are_taken_away(front);
        let n = trim_line_ends(text).len() as int;
        assert(front.take(n) =~= text.take(n));
        assert forall|i: int| n <= i < text.len() implies #[trigger] text[i] == '\n' || text[i]
            == '\r' by {
            if i < front.len() {
                assert(front[i] == text[i]);
            }
        }
    } else {
        assert(text.take(text.len() as int) =~= text);
    }
}

/// The day after a day of the calendar is counted as one more: the next of the
/// month, or the first of the next month, or of the next year. Counting starts
/// with the first of January 1970.
pub proof fn law_the_next_day_counts_one_more(year: int, month: int, day: int)
    requires
        is_civil(year, month, day),
    ensures
        days_of_civil(1970, 1, 1) == 0,
        day < days_in_month(year, month) ==> days_of_civil(year, month, day + 1) == days_of_civil(
            year,
            month,
            day,
        ) + 1,
        day == days_in_month(year, month) && month < 12 ==> days_of_civil(year, month + 1, 1)
            == days_of_civil(year, month, day) + 1,
        day == days_in_month(year, month) && month == 12 ==> days_of_civil(year + 1, 1, 1)
            == days_of_civil(year, month, day) + 1,
{
    lemma_year_lengths(year);
}

#[verifier::rlimit(50)]
#[verifier::spinoff_prover]
proof fn lemma_year_lengths(year: int)
    ensures
        days_to_march(year) - days_to_march(year - 1) == if is_leap(year) {
            366int
        } else {
            365int
        },
{
    lemma_step(year, 4);
    lemma_step(year, 100);
    lemma_step(year, 400);
    lemma_multiples(year);
    let a = year / 4 - (year - 1) / 4;
    let b = year / 100 - (year - 1) / 100;
    let c = year / 400 - (year - 1) / 400;
    assert(days_to_march(year) - days_to_march(year - 1) == 365 + a - b + c);
}

proof fn lemma_multiples(n: int)
    ensures
        n % 400 == 0 ==> n % 100 == 0,
        n % 100 == 0 ==> n % 4 == 0,
{
    if n % 400 == 0 {
        let q = n / 400;
        assert(n == 100 * (4 * q));
        vstd::arithmetic::div_mod::lemma_fundamental_div_mod_converse(n, 100, 4 * q, 0);
    }
    if n % 100 == 0 {
        let q = n / 100;
        assert(n == 4 * (25 * q));
        vstd::arithmetic::div_mod::lemma_fundamental_div_mod_converse(n, 4, 25 * q, 0);
    }
}

proof fn lemma_step(n: int, d: int)
    requires
        d > 1,
    ensures
        n / d - (n - 1) / d == if n % d == 0 {
            1int
        } else {
            0int
        },
{
    let q = n / d;
    let r = n % d;
    vstd::arithmetic::div_mod::lemma_fundamental_div_mod(n, d);
    vstd::arithmetic::div_mod::lemma_mod_bound(n, d);
    if r == 0 {
        assert(n - 1 == d * (q - 1) + (d - 1)) by (nonlinear_arith)
            requires
                n == d * q,
        ;
        vstd::arithmetic::div_mod::lemma_fundamental_div_mod_converse(n - 1, d, q - 1, d - 1);
    } else {
        vstd::arithmetic::div_mod::lemma_fundamental_div_mod_converse(n - 1, d, q, r - 1);
    }
}

/// A year has a 29th of February exactly every fourth year, but of the
/// centuries only every fourth; the other months have their lengths.
pub proof fn law_months_have_their_lengths(year: int)
    ensures
        is_civil(year, 2, 29) <==> year % 400 == 0 || (year % 4 == 0 && year % 100 != 0),
        is_civil(year, 2, 28) && !is_civil(year, 2, 30),
        forall|month: int|
            month == 1 || month == 3 || month == 5 || month == 7 || month == 8 || month == 10
                || month == 12 ==> #[trigger] is_civil(year, month, 31) && !is_civil(year, month, 32),
        forall|month: int|
            month == 4 || month == 6 || month == 9 || month == 11 ==> #[trigger] is_civil(
                year,
                month,
                30,
            ) && !is_civil(year, month, 31),
        !is_civil(year, 0, 1) && !is_civil(year, 13, 1) && !is_civil(year, 1, 0),
{
}

/// A date that is accepted is a day of the calendar, and is written as such.
pub proof fn law_a_date_writes_a_day(date: Seq<char>)
    requires
        is_date(date),
    ensures
        exists|year: int, month: int, day: int|
            0 <= year <= 9999 && is_civil(year, month, day) && #[trigger] date_text(
                year,
                month,
                day,
            ) == date,
{
    let y = date.subrange(0, 4);
    let m = date.subrange(5, 7);
    let d = date.subrange(8, 10);
    lemma_padding(y, 4);
    lemma_padding(m, 2);
    lemma_padding(d, 2);
    reveal_strlit("-");
    assert("-"@ =~= seq!['-']);
    let year = decimal_value(y) as int;
    let month = decimal_value(m) as int;
    let day = decimal_value(d) as int;
    crate::text::lemma_decimal_value_bound(y, 4);
    assert(date =~= y + seq!['-'] + m + seq!['-'] + d);
    assert(date_text(year, month, day) == date);
    assert(year <= 9999) by {
        reveal_with_fuel(decimal_value, 5);
        assert(is_digit(y[0]) && is_digit(y[1]) && is_digit(y[2]) && is_digit(y[3]));
        assert(y.drop_last().drop_last().drop_last().drop_last().len() == 0);
        assert(y.drop_last()[2] == y[2] && y.drop_last().drop_last()[1] == y[1]);
    }
}

/// Digits are their number with the zeros in front that they need.
proof fn lemma_padding(s: Seq<char>, width: nat)
    requires
        s.len() == width,
        width > 0,
        all_digits(s),
    ensures
        zero_padded(decimal(decimal_value(s)), width) == s,
    decreases s.len(),
{
    if s.len() == 1 {
        law_numeral_round_trip(s);
    } else if s[0] != '0' {
        law_numeral_round_trip(s);
    } else {
        let rest = s.drop_first();
        assert forall|i: int| 0 <= i < rest.len() implies is_digit(#[trigger] rest[i]) by {
            assert(rest[i] == s[i + 1]);
        }
        lemma_padding(rest, (width - 1) as nat);
        lemma_leading_zero(s);
        let written = decimal(decimal_value(s));
        law_decimal_round_trip(decimal_value(s));
        assert(written.len() <= rest.len()) by {
            if written.len() > rest.len() {
                assert(zero_padded(written, (width - 1) as nat) == written);
            }
        }
        assert(zero_padded(written, width) =~= seq!['0'] + zero_padded(
            written,
            (width - 1) as nat,
        ));
        assert(s =~= seq!['0'] + rest);
    }
}

proof fn lemma_leading_zero(s: Seq<char>)
    requires
        s.len() > 0,
        s[0] == '0',
    ensures
        decimal_value(s) == decimal_value(s.drop_first()),
    decreases s.len(),
{
    if s.len() == 1 {
        assert(s.drop_last().len() == 0);
        assert(decimal_value(s.drop_last()) == 0);
        assert(s.last() == '0');
        assert(decimal_value(s.drop_first()) == 0);
    } else {
        lemma_leading_zero(s.drop_last());
        assert(s.drop_last().drop_first() =~= s.drop_first().drop_last());
    }
}

} // verus!
