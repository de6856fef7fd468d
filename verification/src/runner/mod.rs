//! Structured subprocess execution: which step to take next, and what the
//! outcome of a task is.

use std::sync::atomic::{AtomicBool, Ordering};
use std::sync::Arc;

use vstd::prelude::*;
use vstd::string::StringExecFns;

pub mod error;
pub mod machine;
pub mod poll;
pub mod promises;
pub mod stream;

use crate::text::{alphanumeric, chars_of, has_char, is_alphanumeric, join, join_texts, texts};

verus! {

/// Whether a character needs no quoting in a displayed command.
pub open spec fn is_safe(c: char) -> bool {
    is_alphanumeric(c) || "-_.=/:+"@.contains(c)
}

/// `argument` with every quote closed, escaped and opened again.
pub open spec fn escaped(argument: Seq<char>) -> Seq<char>
    decreases argument.len(),
{
    if argument.len() == 0 {
        seq![]
    } else if argument.last() == '\'' {
        escaped(argument.drop_last()) + "'\\''"@
    } else {
        escaped(argument.drop_last()).push(argument.last())
    }
}

/// One argument as it is displayed.
pub open spec fn displayed_argument(argument: Seq<char>) -> Seq<char> {
    if forall|i: int| 0 <= i < argument.len() ==> is_safe(#[trigger] argument[i]) {
        argument
    } else {
        "'"@ + escaped(argument) + "'"@
    }
}

/// A command as it is displayed.
pub open spec fn displayed_command(command: Seq<Seq<char>>) -> Seq<char> {
    join(command.map_values(|a: Seq<char>| displayed_argument(a)), " "@)
}

fn display_argument(argument: &str) -> (r: String)
    ensures
        r@ == displayed_argument(argument@),
{
    let chars = chars_of(argument);
    let mut safe: bool = true;
    let mut i: usize = 0;
    while i < chars.len()
        invariant
            i <= chars@.len(),
            chars@ == argument@,
            safe == (forall|j: int| 0 <= j < i ==> is_safe(#[trigger] argument@[j])),
        decreases chars.len() - i,
    {
        if !alphanumeric(chars[i]) && !has_char("-_.=/:+", chars[i]) {
            assert(!is_safe(argument@[i as int]));
            safe = false;
        }
        i += 1;
    }
    if safe {
        return argument.to_owned();
    }
    let mut text = "'".to_owned();
    let ghost open = "'"@;
    i = 0;
    assert(open + escaped(argument@.take(0)) =~= open);
    while i < chars.len()
        invariant
            i <= chars@.len(),
            chars@ == argument@,
            text@ == open + escaped(argument@.take(i as int)),
        decreases chars.len() - i,
    {
        let ghost next = argument@.take(i as int + 1);
        assert(next.drop_last() =~= argument@.take(i as int));
        assert(next.last() == chars@[i as int]);
        if chars[i] == '\'' {
            text.append("'\\''");
            assert(text@ =~= open + escaped(next));
        } else {
            text.push(chars[i]);
            assert(text@ =~= open + escaped(next));
        }
        i += 1;
    }
    assert(argument@.take(i as int) =~= argument@);
    text.append("'");
    text
}

/// Format an argv vector for dry-run output.
pub fn format_command(command: &Vec<String>) -> (r: String)
    ensures
        r@ == displayed_command(texts(command@)),
{
    let ghost shown = texts(command@).map_values(|a: Seq<char>| displayed_argument(a));
    let mut parts: Vec<String> = Vec::new();
    let mut i: usize = 0;
    while i < command.len()
        invariant
            i <= command@.len(),
            shown == texts(command@).map_values(|a: Seq<char>| displayed_argument(a)),
            texts(parts@) == shown.take(i as int),
        decreases command.len() - i,
    {
        let part = display_argument(command[i].as_str());
        let ghost before = texts(parts@);
        assert(texts(command@)[i as int] == command@[i as int]@);
        assert(shown[i as int] == part@);
        parts.push(part);
        assert(texts(parts@) =~= before.push(part@));
        i += 1;
        assert(texts(parts@) =~= shown.take(i as int));
    }
    assert(texts(parts@) =~= shown);
    join_texts(&parts, " ")
}

// ---------------------------------------------------------------------------
// What a shell reads
// ---------------------------------------------------------------------------
/// The word so far, whether or not it has begun.
pub open spec fn word_text(word: Option<Seq<char>>) -> Seq<char> {
    match word {
        Some(text) => text,
        None => Seq::empty(),
    }
}

/// The words of `rest` by the quoting rules of a shell, outside quotes and
/// behind the beginning of a word: blanks end a word, a backslash takes the
/// next character as it is, and a quote takes everything up to the next quote.
/// Nothing where a quote stays open or a backslash stands last.
pub open spec fn unquoted_words(rest: Seq<char>, word: Option<Seq<char>>) -> Option<Seq<Seq<char>>>
    decreases rest.len(),
{
    if rest.len() == 0 {
        match word {
            Some(text) => Some(seq![text]),
            None => Some(seq![]),
        }
    } else {
        let c = rest[0];
        let tail = rest.drop_first();
        if c == ' ' {
            match (word, unquoted_words(tail, None)) {
                (_, None) => None,
                (None, Some(words)) => Some(words),
                (Some(text), Some(words)) => Some(seq![text] + words),
            }
        } else if c == '\'' {
            quoted_words(tail, word_text(word))
        } else if c == '\\' {
            if tail.len() == 0 {
                None
            } else {
                unquoted_words(tail.drop_first(), Some(word_text(word).push(tail[0])))
            }
        } else {
            unquoted_words(tail, Some(word_text(word).push(c)))
        }
    }
}

/// The words of `rest` inside quotes, behind the beginning of a word.
pub open spec fn quoted_words(rest: Seq<char>, word: Seq<char>) -> Option<Seq<Seq<char>>>
    decreases rest.len(),
{
    if rest.len() == 0 {
        None
    } else if rest[0] == '\'' {
        unquoted_words(rest.drop_first(), Some(word))
    } else {
        quoted_words(rest.drop_first(), word.push(rest[0]))
    }
}

/// The words that a shell reads.
pub open spec fn shell_words(text: Seq<char>) -> Option<Seq<Seq<char>>> {
    unquoted_words(text, None)
}

proof fn lemma_safe_read(argument: Seq<char>, rest: Seq<char>, word: Option<Seq<char>>)
    requires
        argument.len() > 0,
        forall|i: int| 0 <= i < argument.len() ==> is_safe(#[trigger] argument[i]),
    ensures
        unquoted_words(argument + rest, word) == unquoted_words(
            rest,
            Some(word_text(word) + argument),
        ),
    decreases argument.len(),
{
    reveal_strlit("-_.=/:+");
    let c = argument[0];
    let less = argument.drop_first();
    let all = argument + rest;
    assert(is_safe(c));
    assert(c != ' ' && c != '\'' && c != '\\') by {
        if "-_.=/:+"@.contains(c) {
            let k = choose|k: int| 0 <= k < "-_.=/:+"@.len() && "-_.=/:+"@[k] == c;
        }
    }
    assert(all[0] == c);
    assert(all.drop_first() =~= less + rest);
    let next = word_text(word).push(c);
    if less.len() > 0 {
        assert forall|i: int| 0 <= i < less.len() implies is_safe(#[trigger] less[i]) by {
            assert(less[i] == argument[i + 1]);
        }
        lemma_safe_read(less, rest, Some(next));
        assert(next + less =~= word_text(word) + argument);
    } else {
        assert(less + rest =~= rest);
        assert(next =~= word_text(word) + argument);
    }
}

proof fn lemma_escaped_read(argument: Seq<char>, rest: Seq<char>, word: Seq<char>)
    ensures
        quoted_words(escaped(argument) + rest, word) == quoted_words(rest, word + argument),
    decreases argument.len(),
{
    if argument.len() == 0 {
        assert(escaped(argument) + rest =~= rest);
        assert(word + argument =~= word);
    } else {
        let less = argument.drop_last();
        let c = argument.last();
        if c == '\'' {
            reveal_strlit("'\\''");
            let mark = "'\\''"@;
            lemma_escaped_read(less, mark + rest, word);
            assert(escaped(argument) + rest =~= escaped(less) + (mark + rest));
            let now = word + less;
            let one = (mark + rest).drop_first();
            let two = one.drop_first();
            let three = two.drop_first();
            assert((mark + rest)[0] == '\'');
            assert(one[0] == '\\');
            assert(two[0] == '\'');
            assert(three[0] == '\'');
            assert(three.drop_first() =~= rest);
            assert(quoted_words(mark + rest, now) == unquoted_words(one, Some(now)));
            assert(unquoted_words(one, Some(now)) == unquoted_words(
                three,
                Some(now.push('\'')),
            ));
            assert(unquoted_words(three, Some(now.push('\''))) == quoted_words(
                rest,
                now.push('\''),
            ));
            assert(now.push('\'') =~= word + argument);
        } else {
            let next = seq![c] + rest;
            lemma_escaped_read(less, next, word);
            assert(escaped(argument) + rest =~= escaped(less) + next);
            assert(next.drop_first() =~= rest);
            assert((word + less).push(c) =~= word + argument);
        }
    }
}

proof fn lemma_argument_read(argument: Seq<char>, rest: Seq<char>)
    requires
        argument.len() > 0,
    ensures
        unquoted_words(displayed_argument(argument) + rest, None) == unquoted_words(
            rest,
            Some(argument),
        ),
{
    if forall|i: int| 0 <= i < argument.len() ==> is_safe(#[trigger] argument[i]) {
        lemma_safe_read(argument, rest, None);
        assert(Seq::<char>::empty() + argument =~= argument);
    } else {
        reveal_strlit("'");
        let text = displayed_argument(argument) + rest;
        let behind = "'"@ + rest;
        assert(text[0] == '\'');
        assert(text.drop_first() =~= escaped(argument) + behind);
        lemma_escaped_read(argument, behind, Seq::empty());
        assert(Seq::<char>::empty() + argument =~= argument);
        assert(behind[0] == '\'');
        assert(behind.drop_first() =~= rest);
    }
}

/// A shell that reads a displayed command gets the command back. An empty
/// argument is displayed as nothing, so no argument may be empty.
pub proof fn law_displayed_commands_are_read_back(command: Seq<Seq<char>>)
    requires
        forall|i: int| 0 <= i < command.len() ==> (#[trigger] command[i]).len() > 0,
    ensures
        shell_words(displayed_command(command)) == Some(command),
    decreases command.len(),
{
    let shown = command.map_values(|a: Seq<char>| displayed_argument(a));
    if command.len() == 0 {
        assert(displayed_command(command) =~= seq![]);
        assert(command =~= seq![]);
    } else {
        let first = command[0];
        let rest = command.drop_first();
        let others = rest.map_values(|a: Seq<char>| displayed_argument(a));
        assert(shown =~= seq![displayed_argument(first)] + others);
        assert(first.len() > 0);
        assert(command =~= seq![first] + rest);
        if rest.len() == 0 {
            reveal_with_fuel(join, 2);
            assert(others =~= seq![]);
            assert(shown.drop_last() =~= seq![]);
            assert(displayed_command(command) =~= displayed_argument(first) + seq![]);
            lemma_argument_read(first, seq![]);
            assert(command =~= seq![first]);
        } else {
            assert forall|i: int| 0 <= i < rest.len() implies (#[trigger] rest[i]).len() > 0 by {
                assert(rest[i] == command[i + 1]);
            }
            law_displayed_commands_are_read_back(rest);
            reveal_strlit(" ");
            crate::text::lemma_join_front(displayed_argument(first), others, " "@);
            let tail = " "@ + displayed_command(rest);
            assert(displayed_command(command) =~= displayed_argument(first) + tail);
            lemma_argument_read(first, tail);
            assert(tail[0] == ' ');
            assert(tail.drop_first() =~= displayed_command(rest));
        }
    }
}

/// A cancellation signal shared by the scheduler and running task processes.
///
/// A token and its clones are one signal: a clone is equal to the token that
/// it was made from, and equal tokens hold the same flag.
#[derive(Debug)]
pub struct CancellationToken {
    flag: Arc<AtomicBool>,
}

impl Clone for CancellationToken {
    fn clone(&self) -> (r: CancellationToken)
        ensures
            r == *self,
    {
        CancellationToken { flag: self.flag.clone() }
    }
}

impl Default for CancellationToken {
    fn default() -> (r: CancellationToken) {
        CancellationToken::new()
    }
}

impl CancellationToken {
    /// A signal of its own, with nothing cancelled yet.
    pub fn new() -> (r: CancellationToken) {
        CancellationToken { flag: Arc::new(AtomicBool::new(false)) }
    }

    /// Ask for cancellation through this token or any clone of it; it is never
    /// taken back.
    pub fn cancel(&self) {
        self.flag.store(true, Ordering::Release);
    }

    /// Whether cancellation was asked for. Another thread may ask at any time,
    /// so the answer is no function of the token.
    pub fn is_cancelled(&self) -> (r: bool) {
        self.flag.load(Ordering::Acquire)
    }
}

} // verus!
