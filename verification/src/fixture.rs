//! A small program for tests: what each of its verbs does.
//!
//! A verb is a list of effects and an exit code. An invocation that cannot be
//! understood still has the effects that come before the mistake is met.

use vstd::prelude::*;
use vstd::string::StringExecFns;

use crate::io::{IoError, IoErrorKind};
use crate::runner::error::signed_decimal;
use crate::text::{
    all_digits, decimal, decimal_value, is_digit, law_decimal_round_trip,
    law_written_numbers_are_read_back, number, only_digits, parse_number, parse_unsigned, same,
    strip_prefix, texts, trim, trim_text, unsigned_value,
};

verus! {

/// The exit code of an invocation that cannot be understood.
pub const FIXTURE_USAGE_ERROR: i32 = 3;

/// One thing that is done.
#[derive(Debug, PartialEq, Eq)]
pub enum Effect {
    Stdout(String),
    Stderr(String),
    Flush,
    Sleep { millis: u64 },
    /// Write a file, after creating its directory.
    Write { path: String, text: String },
    /// Copy a file, after creating the directory of the copy.
    Copy { source: String, destination: String },
    /// Start this program again, with `sleep-write` and these arguments, apart
    /// from the streams of this one.
    Spawn { millis: String, marker: String },
}

/// What an `Effect` says.
pub enum EffectView {
    Stdout(Seq<char>),
    Stderr(Seq<char>),
    Flush,
    Sleep { millis: u64 },
    Write { path: Seq<char>, text: Seq<char> },
    Copy { source: Seq<char>, destination: Seq<char> },
    Spawn { millis: Seq<char>, marker: Seq<char> },
}

impl View for Effect {
    type V = EffectView;

    open spec fn view(&self) -> EffectView {
        match *self {
            Effect::Stdout(text) => EffectView::Stdout(text@),
            Effect::Stderr(text) => EffectView::Stderr(text@),
            Effect::Flush => EffectView::Flush,
            Effect::Sleep { millis } => EffectView::Sleep { millis },
            Effect::Write { path, text } => EffectView::Write { path: path@, text: text@ },
            Effect::Copy { source, destination } => EffectView::Copy {
                source: source@,
                destination: destination@,
            },
            Effect::Spawn { millis, marker } => EffectView::Spawn {
                millis: millis@,
                marker: marker@,
            },
        }
    }
}

/// What is done, in order, and how it ends: with an exit code, or with a
/// complaint about the invocation.
#[derive(Debug, PartialEq, Eq)]
pub struct Script {
    pub effects: Vec<Effect>,
    pub end: Result<i32, String>,
}

/// What a `Script` says.
#[verifier::ext_equal]
pub struct ScriptView {
    pub effects: Seq<EffectView>,
    pub end: Result<i32, Seq<char>>,
}

/// What some effects say.
pub open spec fn effect_views(effects: Seq<Effect>) -> Seq<EffectView> {
    effects.map_values(|e: Effect| e@)
}

impl View for Script {
    type V = ScriptView;

    open spec fn view(&self) -> ScriptView {
        ScriptView {
            effects: effect_views(self.effects@),
            end: match self.end {
                Ok(code) => Ok(code),
                Err(message) => Err(message@),
            },
        }
    }
}

/// A script of the given effects that ends with a code.
pub open spec fn done(effects: Seq<EffectView>, code: i32) -> ScriptView {
    ScriptView { effects, end: Ok(code) }
}

/// A script of the given effects that ends with a complaint.
pub open spec fn misused(effects: Seq<EffectView>, message: Seq<char>) -> ScriptView {
    ScriptView { effects, end: Err(message) }
}

/// The complaint about a value that is missing or malformed.
pub open spec fn usage_text(line: Seq<char>) -> Seq<char> {
    "usage: mono-fixture "@ + line
}

/// The exit code that a text writes.
pub open spec fn code_value(value: Seq<char>) -> Result<i32, Seq<char>> {
    let bad = usage_text("'"@ + value + "' is not an exit code"@);
    if value.len() > 0 && value[0] == '-' {
        let digits = value.skip(1);
        if digits.len() > 0 && all_digits(digits) && decimal_value(digits) <= 0x8000_0000 {
            Ok((-(decimal_value(digits) as int)) as i32)
        } else {
            Err(bad)
        }
    } else {
        match unsigned_value(value) {
            Some(code) => if code <= 0x7fff_ffff {
                Ok(code as i32)
            } else {
                Err(bad)
            },
            None => Err(bad),
        }
    }
}

/// The exit code that a text writes.
pub fn parse_code(value: &str) -> (r: Result<i32, String>)
    ensures
        match r {
            Ok(code) => code_value(value@) == Ok::<i32, Seq<char>>(code),
            Err(message) => code_value(value@) == Err::<i32, Seq<char>>(message@),
        },
{
    proof {
        reveal_strlit("-");
    }
    let parsed: Option<i32> = match strip_prefix(value, "-") {
        Some(digits) => {
            assert("-"@ =~= seq!['-']);
            assert(value@[0] == '-') by {
                assert("-"@ =~= value@.subrange(0, 1));
                assert("-"@[0] == value@.subrange(0, 1)[0]);
            }
            assert(digits@ =~= value@.skip(1));
            if digits.as_str().is_empty() || !only_digits(digits.as_str()) {
                None
            } else {
                match parse_number(digits.as_str()) {
                    Some(n) => if n <= 0x8000_0000 {
                        Some((-(n as i64)) as i32)
                    } else {
                        None
                    },
                    None => None,
                }
            }
        },
        None => {
            assert(value@.len() > 0 ==> value@[0] != '-') by {
                if value@.len() > 0 && value@[0] == '-' {
                    assert("-"@ =~= value@.subrange(0, 1));
                }
            }
            match parse_unsigned(value) {
                Some(n) => if n <= 0x7fff_ffff {
                    Some(n as i32)
                } else {
                    None
                },
                None => None,
            }
        },
    };
    match parsed {
        Some(code) => Ok(code),
        None => {
            let mut line = "'".to_owned();
            line.append(value);
            line.append("' is not an exit code");
            Err(usage_error(line.as_str()))
        },
    }
}

fn usage_error(line: &str) -> (r: String)
    ensures
        r@ == usage_text(line@),
{
    let mut text = "usage: mono-fixture ".to_owned();
    text.append(line);
    text
}

/// The number of milliseconds that a text writes.
pub open spec fn millis_value(value: Seq<char>) -> Result<u64, Seq<char>> {
    match unsigned_value(value) {
        Some(millis) => Ok(millis),
        None => Err(usage_text("'"@ + value + "' is not a millisecond count"@)),
    }
}

fn parse_millis(value: &str) -> (r: Result<u64, String>)
    ensures
        match r {
            Ok(millis) => millis_value(value@) == Ok::<u64, Seq<char>>(millis),
            Err(message) => millis_value(value@) == Err::<u64, Seq<char>>(message@),
        },
{
    match parse_unsigned(value) {
        Some(millis) => Ok(millis),
        None => {
            let mut line = "'".to_owned();
            line.append(value);
            line.append("' is not a millisecond count");
            Err(usage_error(line.as_str()))
        },
    }
}

/// What a verb asks the file system before anything is done.
#[derive(Debug, PartialEq, Eq)]
pub enum Question {
    Nothing,
    /// Whether something is at the path.
    Exists(String),
    /// What the counter at the path holds.
    Count(String),
}

/// What a counter holds.
#[derive(Debug, PartialEq, Eq)]
pub enum Count {
    Known(u64),
    /// The counter holds no number, which no test does.
    Malformed,
    Failed(IoError),
}

/// What a counter holds: nothing counts as zero.
pub fn read_count(read: Result<String, IoError>) -> (r: Count)
    ensures
        match read {
            Ok(contents) => match unsigned_value(trim(contents@)) {
                Some(n) => r == Count::Known(n),
                None => r == Count::Malformed,
            },
            Err(error) => if error.kind == IoErrorKind::NotFound {
                r == Count::Known(0)
            } else {
                r == Count::Failed(error)
            },
        },
{
    match read {
        Ok(contents) => match parse_unsigned(trim_text(contents.as_str()).as_str()) {
            Some(n) => Count::Known(n),
            None => Count::Malformed,
        },
        Err(error) => {
            if error.kind == IoErrorKind::NotFound {
                Count::Known(0)
            } else {
                Count::Failed(error)
            }
        },
    }
}

/// The files that pairs of a path and a text stand for.
pub open spec fn written_pairs(pairs: Seq<Seq<char>>) -> Seq<EffectView>
    decreases pairs.len(),
{
    if pairs.len() < 2 {
        seq![]
    } else {
        written_pairs(pairs.take(pairs.len() - 2)).push(
            EffectView::Write { path: pairs[pairs.len() - 2], text: pairs[pairs.len() - 1] },
        )
    }
}

/// What an invocation does, where `exists` and `count` answer its question.
pub open spec fn script(args: Seq<Seq<char>>, exists: bool, count: u64) -> ScriptView {
    if args.len() == 0 {
        misused(seq![], "a verb is required"@)
    } else {
        let verb = args[0];
        let rest = args.skip(1);
        if verb == "print"@ {
            if rest.len() < 1 {
                misused(seq![], usage_text("print <text>"@))
            } else {
                done(seq![EffectView::Stdout(rest[0])], 0)
            }
        } else if verb == "streams"@ {
            let line = usage_text("streams <stdout> <stderr>"@);
            if rest.len() < 1 {
                misused(seq![], line)
            } else if rest.len() < 2 {
                misused(seq![EffectView::Stdout(rest[0])], line)
            } else {
                done(seq![EffectView::Stdout(rest[0]), EffectView::Stderr(rest[1])], 0)
            }
        } else if verb == "fail"@ {
            if rest.len() < 1 {
                misused(seq![], usage_text("fail <code>"@))
            } else {
                ScriptView { effects: seq![], end: code_value(rest[0]) }
            }
        } else if verb == "fail-with"@ {
            if rest.len() < 2 {
                misused(seq![], usage_text("fail-with <code> <stderr>"@))
            } else {
                ScriptView {
                    effects: seq![EffectView::Stderr(rest[1])],
                    end: code_value(rest[0]),
                }
            }
        } else if verb == "delay-print"@ {
            let line = usage_text("delay-print <first> <millis> <second>"@);
            if rest.len() < 1 {
                misused(seq![], line)
            } else {
                let first = seq![EffectView::Stdout(rest[0]), EffectView::Flush];
                if rest.len() < 2 {
                    misused(first, line)
                } else {
                    match millis_value(rest[1]) {
                        Err(message) => misused(first, message),
                        Ok(millis) => if rest.len() < 3 {
                            misused(first.push(EffectView::Sleep { millis }), line)
                        } else {
                            done(
                                first.push(EffectView::Sleep { millis }).push(
                                    EffectView::Stdout(rest[2]),
                                ),
                                0,
                            )
                        },
                    }
                }
            }
        } else if verb == "write"@ {
            if rest.len() < 2 {
                misused(seq![], usage_text("write <path> <text>"@))
            } else {
                done(seq![EffectView::Write { path: rest[0], text: rest[1] }], 0)
            }
        } else if verb == "write-many"@ {
            if rest.len() % 2 != 0 {
                misused(seq![], "write-many <path> <text> [<path> <text>...]"@)
            } else {
                done(written_pairs(rest), 0)
            }
        } else if verb == "copy"@ {
            if rest.len() < 2 {
                misused(seq![], usage_text("copy <source> <destination>"@))
            } else {
                done(seq![EffectView::Copy { source: rest[0], destination: rest[1] }], 0)
            }
        } else if verb == "count-copy"@ {
            if rest.len() < 3 {
                misused(seq![], usage_text("count-copy <counter> <source> <destination>"@))
            } else {
                done(
                    seq![
                        EffectView::Write {
                            path: rest[0],
                            text: decimal((count + 1) as nat) + "\n"@,
                        },
                        EffectView::Copy { source: rest[1], destination: rest[2] },
                    ],
                    0,
                )
            }
        } else if verb == "fail-once"@ {
            let line = usage_text("fail-once <marker> <code> <text>"@);
            if rest.len() < 2 {
                misused(seq![], line)
            } else {
                match code_value(rest[1]) {
                    Err(message) => misused(seq![], message),
                    Ok(code) => if rest.len() < 3 {
                        misused(seq![], line)
                    } else if exists {
                        done(seq![EffectView::Stdout(rest[2])], 0)
                    } else {
                        done(seq![EffectView::Write { path: rest[0], text: "attempted"@ }], code)
                    },
                }
            }
        } else if verb == "write-if-exists"@ {
            if rest.len() < 2 {
                misused(seq![], usage_text("write-if-exists <check> <marker>"@))
            } else if exists {
                done(seq![EffectView::Write { path: rest[1], text: "ran"@ }], 0)
            } else {
                done(seq![], 1)
            }
        } else if verb == "spawn-detached"@ {
            if rest.len() < 2 {
                misused(seq![], usage_text("spawn-detached <millis> <marker>"@))
            } else {
                done(seq![EffectView::Spawn { millis: rest[0], marker: rest[1] }], 0)
            }
        } else if verb == "timeout-tree"@ {
            if rest.len() < 2 {
                misused(seq![], usage_text("timeout-tree <millis> <marker>"@))
            } else {
                done(
                    seq![
                        EffectView::Spawn { millis: rest[0], marker: rest[1] },
                        EffectView::Sleep { millis: 3_600_000 },
                    ],
                    0,
                )
            }
        } else if verb == "sleep-write"@ {
            if rest.len() < 2 {
                misused(seq![], usage_text("sleep-write <millis> <marker>"@))
            } else {
                match millis_value(rest[0]) {
                    Err(message) => misused(seq![], message),
                    Ok(millis) => done(
                        seq![
                            EffectView::Sleep { millis },
                            EffectView::Write { path: rest[1], text: "leaked"@ },
                        ],
                        0,
                    ),
                }
            }
        } else {
            misused(seq![], "unknown verb '"@ + verb + "'"@)
        }
    }
}

/// What an invocation asks the file system before anything is done: only one
/// that can be understood asks.
pub open spec fn question_of(args: Seq<Seq<char>>) -> Option<(bool, Seq<char>)> {
    if args.len() == 0 {
        None
    } else {
        let verb = args[0];
        let rest = args.skip(1);
        if verb == "count-copy"@ && rest.len() >= 3 {
            Some((false, rest[0]))
        } else if verb == "fail-once"@ && rest.len() >= 3 && code_value(rest[1]) is Ok {
            Some((true, rest[0]))
        } else if verb == "write-if-exists"@ && rest.len() >= 2 {
            Some((true, rest[0]))
        } else {
            None
        }
    }
}

/// What an invocation asks the file system before anything is done.
pub fn question(args: &Vec<String>) -> (r: Question)
    ensures
        question_of(texts(args@)) == (match r {
            Question::Nothing => None,
            Question::Exists(path) => Some((true, path@)),
            Question::Count(path) => Some((false, path@)),
        }),
{
    let ghost all = texts(args@);
    let count: usize = args.len();
    assert(all.len() == count);
    if count < 3 {
        return Question::Nothing;
    }
    assert(all.skip(1)[0] == args@[1]@);
    assert(all.skip(1)[1] == args@[2]@);
    let verb = args[0].as_str();
    if count >= 4 && same(verb, "count-copy") {
        return Question::Count(args[1].clone());
    }
    if count >= 4 && same(verb, "fail-once") {
        if let Ok(_) = parse_code(args[2].as_str()) {
            return Question::Exists(args[1].clone());
        }
    }
    if same(verb, "write-if-exists") {
        return Question::Exists(args[1].clone());
    }
    Question::Nothing
}

fn finished(effects: Vec<Effect>, code: i32) -> (r: Script)
    ensures
        r@ == done(effect_views(effects@), code),
{
    Script { effects, end: Ok(code) }
}

fn refused(effects: Vec<Effect>, line: &str) -> (r: Script)
    ensures
        r@ == misused(effect_views(effects@), usage_text(line@)),
{
    Script { effects, end: Err(usage_error(line)) }
}

fn nothing() -> (r: Vec<Effect>)
    ensures
        effect_views(r@) == Seq::<EffectView>::empty(),
{
    let none: Vec<Effect> = Vec::new();
    assert(effect_views(none@) =~= Seq::<EffectView>::empty());
    none
}

fn one(effect: Effect) -> (r: Vec<Effect>)
    ensures
        effect_views(r@) == seq![effect@],
{
    let mut effects: Vec<Effect> = Vec::new();
    effects.push(effect);
    assert(effect_views(effects@) =~= seq![effect@]);
    effects
}

fn two(first: Effect, second: Effect) -> (r: Vec<Effect>)
    ensures
        effect_views(r@) == seq![first@, second@],
{
    let mut effects: Vec<Effect> = Vec::new();
    effects.push(first);
    effects.push(second);
    assert(effect_views(effects@) =~= seq![first@, second@]);
    effects
}

fn also(effects: &mut Vec<Effect>, effect: Effect)
    ensures
        effect_views(final(effects)@) == effect_views(old(effects)@).push(effect@),
{
    let ghost before = effect_views(effects@);
    effects.push(effect);
    assert(effect_views(effects@) =~= before.push(effect@));
}

fn delay_print(args: &Vec<String>) -> (r: Script)
    requires
        args@.len() > 0,
        texts(args@)[0] == "delay-print"@,
    ensures
        forall|exists: bool, count: u64| r@ == #[trigger] script(texts(args@), exists, count),
{
    let ghost all = texts(args@);
    let ghost rest = all.skip(1);
    let line = "delay-print <first> <millis> <second>";
    let count: usize = args.len();
    assert(rest.len() == count - 1);
    proof {
        lemma_delay_is_no_other_verb();
    }
    if count < 2 {
        return refused(nothing(), line);
    }
    assert(rest[0] == args@[1]@);
    let mut effects = two(Effect::Stdout(args[1].clone()), Effect::Flush);
    if count < 3 {
        return refused(effects, line);
    }
    assert(rest[1] == args@[2]@);
    match parse_millis(args[2].as_str()) {
        Err(message) => Script { effects, end: Err(message) },
        Ok(millis) => {
            also(&mut effects, Effect::Sleep { millis });
            if count < 4 {
                return refused(effects, line);
            }
            assert(rest[2] == args@[3]@);
            also(&mut effects, Effect::Stdout(args[3].clone()));
            finished(effects, 0)
        },
    }
}

proof fn lemma_delay_is_no_other_verb()
    ensures
        "delay-print"@ != "print"@,
        "delay-print"@ != "streams"@,
        "delay-print"@ != "fail"@,
        "delay-print"@ != "fail-with"@,
{
    reveal_strlit("delay-print");
    reveal_strlit("print");
    reveal_strlit("streams");
    reveal_strlit("fail");
    reveal_strlit("fail-with");
    assert("delay-print"@.len() == 11);
}

fn write_many(args: &Vec<String>) -> (r: Vec<Effect>)
    requires
        args@.len() % 2 == 1,
    ensures
        effect_views(r@) == written_pairs(texts(args@).skip(1)),
{
    let ghost rest = texts(args@).skip(1);
    let count: usize = args.len();
    let mut effects: Vec<Effect> = nothing();
    let mut i: usize = 1;
    assert(rest.take(0) =~= seq![]);
    while i < count
        invariant
            1 <= i <= count,
            count == args@.len(),
            count % 2 == 1,
            i % 2 == 1,
            rest == texts(args@).skip(1),
            effect_views(effects@) == written_pairs(rest.take(i - 1)),
        decreases count - i,
    {
        let ghost next = rest.take(i + 1);
        assert(next.take(next.len() - 2) =~= rest.take(i - 1));
        assert(next[next.len() - 2] == args@[i as int]@);
        assert(next[next.len() - 1] == args@[i + 1]@);
        also(
            &mut effects,
            Effect::Write { path: args[i].clone(), text: args[i + 1].clone() },
        );
        i += 2;
    }
    assert(rest.take(i - 1) =~= rest);
    effects
}

/// What an invocation does, where `exists` and `count` answer its question.
#[verifier::rlimit(40)]
pub fn run(args: &Vec<String>, exists: bool, count: u64) -> (r: Script)
    requires
        count < u64::MAX,
    ensures
        r@ == script(texts(args@), exists, count),
{
    let ghost all = texts(args@);
    let given: usize = args.len();
    assert(all.len() == given);
    if given == 0 {
        return Script { effects: nothing(), end: Err("a verb is required".to_owned()) };
    }
    let ghost rest = all.skip(1);
    assert(all[0] == args@[0]@);
    assert(rest.len() == given - 1);
    assert(given > 1 ==> rest[0] == args@[1]@);
    assert(given > 2 ==> rest[1] == args@[2]@);
    assert(given > 3 ==> rest[2] == args@[3]@);
    let verb = args[0].as_str();
    if same(verb, "print") {
        if given < 2 {
            return refused(nothing(), "print <text>");
        }
        return finished(one(Effect::Stdout(args[1].clone())), 0);
    }
    if same(verb, "streams") {
        if given < 2 {
            return refused(nothing(), "streams <stdout> <stderr>");
        }
        if given < 3 {
            return refused(one(Effect::Stdout(args[1].clone())), "streams <stdout> <stderr>");
        }
        return finished(two(Effect::Stdout(args[1].clone()), Effect::Stderr(args[2].clone())), 0);
    }
    if same(verb, "fail") {
        if given < 2 {
            return refused(nothing(), "fail <code>");
        }
        return Script { effects: nothing(), end: parse_code(args[1].as_str()) };
    }
    if same(verb, "fail-with") {
        if given < 3 {
            return refused(nothing(), "fail-with <code> <stderr>");
        }
        return Script {
            effects: one(Effect::Stderr(args[2].clone())),
            end: parse_code(args[1].as_str()),
        };
    }
    if same(verb, "delay-print") {
        return delay_print(args);
    }
    if same(verb, "write") {
        if given < 3 {
            return refused(nothing(), "write <path> <text>");
        }
        return finished(one(Effect::Write { path: args[1].clone(), text: args[2].clone() }), 0);
    }
    if same(verb, "write-many") {
        if given % 2 == 0 {
            return Script {
                effects: nothing(),
                end: Err("write-many <path> <text> [<path> <text>...]".to_owned()),
            };
        }
        return finished(write_many(args), 0);
    }
    if same(verb, "copy") {
        if given < 3 {
            return refused(nothing(), "copy <source> <destination>");
        }
        return finished(
            one(Effect::Copy { source: args[1].clone(), destination: args[2].clone() }),
            0,
        );
    }
    if same(verb, "count-copy") {
        if given < 4 {
            return refused(nothing(), "count-copy <counter> <source> <destination>");
        }
        let mut text = number((count + 1) as u128);
        text.append("\n");
        return finished(
            two(
                Effect::Write { path: args[1].clone(), text },
                Effect::Copy { source: args[2].clone(), destination: args[3].clone() },
            ),
            0,
        );
    }
    if same(verb, "fail-once") {
        if given < 3 {
            return refused(nothing(), "fail-once <marker> <code> <text>");
        }
        return match parse_code(args[2].as_str()) {
            Err(message) => Script { effects: nothing(), end: Err(message) },
            Ok(code) => if given < 4 {
                refused(nothing(), "fail-once <marker> <code> <text>")
            } else if exists {
                finished(one(Effect::Stdout(args[3].clone())), 0)
            } else {
                finished(
                    one(Effect::Write { path: args[1].clone(), text: "attempted".to_owned() }),
                    code,
                )
            },
        };
    }
    if same(verb, "write-if-exists") {
        if given < 3 {
            return refused(nothing(), "write-if-exists <check> <marker>");
        }
        if exists {
            return finished(
                one(Effect::Write { path: args[2].clone(), text: "ran".to_owned() }),
                0,
            );
        }
        return finished(nothing(), 1);
    }
    if same(verb, "spawn-detached") {
        if given < 3 {
            return refused(nothing(), "spawn-detached <millis> <marker>");
        }
        return finished(one(Effect::Spawn { millis: args[1].clone(), marker: args[2].clone() }), 0);
    }
    if same(verb, "timeout-tree") {
        if given < 3 {
            return refused(nothing(), "timeout-tree <millis> <marker>");
        }
        return finished(
            two(
                Effect::Spawn { millis: args[1].clone(), marker: args[2].clone() },
                Effect::Sleep { millis: 3_600_000 },
            ),
            0,
        );
    }
    if same(verb, "sleep-write") {
        if given < 3 {
            return refused(nothing(), "sleep-write <millis> <marker>");
        }
        return match parse_millis(args[1].as_str()) {
            Err(message) => Script { effects: nothing(), end: Err(message) },
            Ok(millis) => finished(
                two(
                    Effect::Sleep { millis },
                    Effect::Write { path: args[2].clone(), text: "leaked".to_owned() },
                ),
                0,
            ),
        };
    }
    let mut message = "unknown verb '".to_owned();
    message.append(verb);
    message.append("'");
    Script { effects: nothing(), end: Err(message) }
}

/// An invocation that asks nothing does the same whatever there is; one that asks
/// whether a file exists does not depend on a number, nor one that asks for a
/// number on whether a file exists.
pub proof fn law_only_what_is_asked_matters(
    args: Seq<Seq<char>>,
    exists: bool,
    count: u64,
    other_exists: bool,
    other_count: u64,
)
    ensures
        question_of(args) is None ==> script(args, exists, count) == script(
            args,
            other_exists,
            other_count,
        ),
        (question_of(args) matches Some((true, _))) ==> script(args, exists, count) == script(
            args,
            exists,
            other_count,
        ),
        (question_of(args) matches Some((false, _))) ==> script(args, exists, count) == script(
            args,
            other_exists,
            count,
        ),
{
    reveal_strlit("count-copy");
    reveal_strlit("fail-once");
    reveal_strlit("write-if-exists");
    if args.len() > 0 {
        let verb = args[0];
        assert("count-copy"@.len() == 10 && "fail-once"@.len() == 9 && "write-if-exists"@.len()
            == 15);
    }
}

/// Every exit code is read back from how it is written.
pub proof fn law_written_codes_are_read_back(code: i32)
    ensures
        code_value(signed_decimal(code as int)) == Ok::<i32, Seq<char>>(code),
{
    let text = signed_decimal(code as int);
    reveal_strlit("-");
    if code < 0 {
        let digits = decimal((-(code as int)) as nat);
        law_decimal_round_trip((-(code as int)) as nat);
        assert(text[0] == '-');
        assert(text.skip(1) =~= digits);
    } else {
        law_decimal_round_trip(code as nat);
        assert(is_digit(text[0]));
        law_written_numbers_are_read_back(code as u64, text);
    }
}

/// Files are written in the order in which they are named, each with the text
/// behind its name.
pub proof fn law_many_files_are_written_in_order(pairs: Seq<Seq<char>>)
    requires
        pairs.len() % 2 == 0,
    ensures
        written_pairs(pairs).len() * 2 == pairs.len(),
        forall|i: int|
            0 <= i < written_pairs(pairs).len() ==> #[trigger] written_pairs(pairs)[i]
                == (EffectView::Write { path: pairs[2 * i], text: pairs[2 * i + 1] }),
    decreases pairs.len(),
{
    if pairs.len() >= 2 {
        let front = pairs.take(pairs.len() - 2);
        law_many_files_are_written_in_order(front);
        assert forall|i: int| 0 <= i < written_pairs(pairs).len() implies #[trigger] written_pairs(
            pairs,
        )[i] == (EffectView::Write { path: pairs[2 * i], text: pairs[2 * i + 1] }) by {
            if i < written_pairs(front).len() {
                assert(written_pairs(pairs)[i] == written_pairs(front)[i]);
                assert(front[2 * i] == pairs[2 * i]);
                assert(front[2 * i + 1] == pairs[2 * i + 1]);
            }
        }
    }
}

} // verus!
