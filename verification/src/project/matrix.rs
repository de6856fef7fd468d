//! Matrix dimensions: task instances, their names and their placeholders.

use vstd::prelude::*;
use vstd::string::StringExecFns;

use crate::map::{inserted, lemma_inserted_last, lemma_lookup_index, lemma_lookup_some, lookup};
use crate::map::{sorted, TextMap};
use crate::text::{chars_of, copy_texts, find, find_from, holds, join, join_texts};
use crate::text::{lemma_position, lemma_position_bounds, position, position_from, split, split_text};
use crate::text::{law_the_first_occurrence_is_found, lemma_find_bounds, lemma_found_at, stands_at};
use crate::text::{text_lt, text_of, texts};

verus! {

/// The dimensions of one instance: each dimension with its value, in the order
/// of the dimensions.
pub type Dimensions = Seq<(Seq<char>, Seq<char>)>;

/// What a map from text to text says.
pub open spec fn text_entries(entries: Seq<(Seq<char>, String)>) -> Dimensions {
    entries.map_values(|e: (Seq<char>, String)| (e.0, e.1@))
}

/// What a map from text to lists of text says.
pub open spec fn list_entries(entries: Seq<(Seq<char>, Vec<String>)>) -> Seq<
    (Seq<char>, Seq<Seq<char>>),
> {
    entries.map_values(|e: (Seq<char>, Vec<String>)| (e.0, texts(e.1@)))
}

pub proof fn lemma_text_entries_lookup(entries: Seq<(Seq<char>, String)>, key: Seq<char>)
    ensures
        lookup(text_entries(entries), key) == (match lookup(entries, key) {
            Some(v) => Some(v@),
            None => None,
        }),
    decreases entries.len(),
{
    if entries.len() > 0 {
        assert(text_entries(entries).drop_first() =~= text_entries(entries.drop_first()));
        lemma_text_entries_lookup(entries.drop_first(), key);
    }
}

pub proof fn lemma_text_entries_inserted(
    entries: Seq<(Seq<char>, String)>,
    key: Seq<char>,
    value: String,
)
    ensures
        text_entries(inserted(entries, key, value)) == inserted(text_entries(entries), key, value@),
    decreases entries.len(),
{
    let mapped = text_entries(entries);
    if entries.len() > 0 {
        assert(mapped.drop_first() =~= text_entries(entries.drop_first()));
        lemma_text_entries_inserted(entries.drop_first(), key, value);
    }
    assert(text_entries(inserted(entries, key, value)) =~= inserted(mapped, key, value@));
}

/// The task that an instance name belongs to: what stands before its bracket.
pub open spec fn base_name(task: Seq<char>) -> Option<Seq<char>> {
    let p = position(task, '[');
    if p >= task.len() {
        Some(task)
    } else if task.last() == ']' && p > 0 {
        Some(task.take(p))
    } else {
        None
    }
}

/// The dimensions that `key=value` pairs name: none may lack a key or a value,
/// and no key may occur twice.
pub open spec fn pairs_dimensions(pairs: Seq<Seq<char>>) -> Option<Dimensions>
    decreases pairs.len(),
{
    if pairs.len() == 0 {
        Some(seq![])
    } else {
        match pairs_dimensions(pairs.drop_last()) {
            None => None,
            Some(earlier) => {
                let pair = pairs.last();
                let p = position(pair, '=');
                if p == 0 || p + 1 >= pair.len() || lookup(earlier, pair.take(p)) is Some {
                    None
                } else {
                    Some(inserted(earlier, pair.take(p), pair.skip(p + 1)))
                }
            },
        }
    }
}

/// The dimensions that an instance name carries between its brackets.
pub open spec fn dimensions_of(task: Seq<char>) -> Option<Dimensions> {
    let p = position(task, '[');
    if p >= task.len() {
        Some(seq![])
    } else if task.last() != ']' || p + 2 == task.len() {
        None
    } else {
        pairs_dimensions(split(task.subrange(p + 1, task.len() - 1), ','))
    }
}

pub open spec fn missing_dimension(key: Seq<char>) -> Seq<char> {
    "matrix task reference is missing dimension '"@ + key + "'"@
}

pub open spec fn missing_value(key: Seq<char>, value: Seq<char>) -> Seq<char> {
    "matrix dimension '"@ + key + "' has no value '"@ + value + "'"@
}

/// The first dimension, in order, whose value the matrix does not list.
pub open spec fn first_mismatch(
    matrix: Seq<(Seq<char>, Seq<Seq<char>>)>,
    dimensions: Dimensions,
) -> Option<Seq<char>>
    decreases matrix.len(),
{
    if matrix.len() == 0 {
        None
    } else {
        match lookup(dimensions, matrix[0].0) {
            None => Some(missing_dimension(matrix[0].0)),
            Some(value) => if !matrix[0].1.contains(value) {
                Some(missing_value(matrix[0].0, value))
            } else {
                first_mismatch(matrix.drop_first(), dimensions)
            },
        }
    }
}

/// Why `dimensions` is no instance of `matrix`.
pub open spec fn instance_problem(
    matrix: Seq<(Seq<char>, Seq<Seq<char>>)>,
    dimensions: Dimensions,
) -> Option<Seq<char>> {
    if matrix.len() == 0 {
        if dimensions.len() == 0 {
            None
        } else {
            Some("task is not matrix-parameterized"@)
        }
    } else if matrix.len() != dimensions.len() {
        Some("matrix task references must specify every dimension"@)
    } else {
        first_mismatch(matrix, dimensions)
    }
}

/// `key=value` for each dimension, in order.
pub open spec fn dimension_pairs(dimensions: Dimensions) -> Seq<Seq<char>> {
    dimensions.map_values(|e: (Seq<char>, Seq<char>)| e.0 + "="@ + e.1)
}

/// The name of an instance.
pub open spec fn instance_name(base: Seq<char>, dimensions: Dimensions) -> Seq<char> {
    if dimensions.len() == 0 {
        base
    } else {
        base + "["@ + join(dimension_pairs(dimensions), ","@) + "]"@
    }
}

/// `instance` with each of `values` in turn for one further dimension.
pub open spec fn with_values(
    instance: Dimensions,
    key: Seq<char>,
    values: Seq<Seq<char>>,
) -> Seq<Dimensions> {
    values.map_values(|v: Seq<char>| instance.push((key, v)))
}

/// Every instance with every value.
pub open spec fn product(
    instances: Seq<Dimensions>,
    key: Seq<char>,
    values: Seq<Seq<char>>,
) -> Seq<Dimensions>
    decreases instances.len(),
{
    if instances.len() == 0 {
        seq![]
    } else {
        product(instances.drop_last(), key, values) + with_values(instances.last(), key, values)
    }
}

/// The values that a dimension takes: the fixed one where there is one.
pub open spec fn selected_values(
    key: Seq<char>,
    values: Seq<Seq<char>>,
    fixed: Dimensions,
) -> Result<Seq<Seq<char>>, Seq<char>> {
    match lookup(fixed, key) {
        Some(value) => if values.contains(value) {
            Ok(seq![value])
        } else {
            Err(missing_value(key, value))
        },
        None => Ok(values),
    }
}

/// All instances of `matrix` whose dimensions agree with `fixed`.
pub open spec fn instances_of(
    matrix: Seq<(Seq<char>, Seq<Seq<char>>)>,
    fixed: Dimensions,
) -> Result<Seq<Dimensions>, Seq<char>>
    decreases matrix.len(),
{
    if matrix.len() == 0 {
        Ok(seq![seq![]])
    } else {
        match instances_of(matrix.drop_last(), fixed) {
            Err(message) => Err(message),
            Ok(earlier) => match selected_values(matrix.last().0, matrix.last().1, fixed) {
                Err(message) => Err(message),
                Ok(values) => Ok(product(earlier, matrix.last().0, values)),
            },
        }
    }
}

pub open spec fn unterminated_placeholder(value: Seq<char>) -> Seq<char> {
    "unterminated matrix placeholder in `"@ + value + "`"@
}

pub open spec fn unknown_placeholder(key: Seq<char>, value: Seq<char>) -> Seq<char> {
    "unknown matrix placeholder `${"@ + key + "}` in `"@ + value + "`"@
}

/// `rest` with every placeholder `${dimension}` replaced; `value` is the whole
/// text that messages quote.
pub open spec fn replaced(
    value: Seq<char>,
    rest: Seq<char>,
    dimensions: Dimensions,
) -> Result<Seq<char>, Seq<char>>
    decreases rest.len(),
{
    match find(rest, "${"@) {
        None => Ok(rest),
        Some(start) => {
            let after = rest.skip(start + 2);
            let end = position(after, '}');
            if start < 0 || end < 0 || start + 2 > rest.len() || end >= after.len() {
                Err(unterminated_placeholder(value))
            } else {
                match lookup(dimensions, after.take(end)) {
                    None => Err(unknown_placeholder(after.take(end), value)),
                    Some(replacement) => match replaced(value, after.skip(end + 1), dimensions) {
                        Err(message) => Err(message),
                        Ok(tail) => Ok(rest.take(start) + replacement + tail),
                    },
                }
            }
        },
    }
}

/// `value` with every placeholder `${dimension}` replaced.
pub open spec fn interpolated(value: Seq<char>, dimensions: Dimensions) -> Result<
    Seq<char>,
    Seq<char>,
> {
    replaced(value, value, dimensions)
}

// ---------------------------------------------------------------------------
// Laws
// ---------------------------------------------------------------------------
/// Texts with others between them: `plain[0] between[0] plain[1] ..`.
pub open spec fn woven(plain: Seq<Seq<char>>, between: Seq<Seq<char>>) -> Seq<char>
    decreases between.len(),
{
    if between.len() == 0 {
        plain[0]
    } else {
        plain[0] + between[0] + woven(plain.drop_first(), between.drop_first())
    }
}

/// The placeholders for some dimensions.
pub open spec fn placeholders(names: Seq<Seq<char>>) -> Seq<Seq<char>> {
    names.map_values(|name: Seq<char>| seq!['$', '{'] + name + seq!['}'])
}

/// Whether a placeholder begins somewhere in `text`.
pub open spec fn has_placeholder(text: Seq<char>) -> bool {
    exists|i: int| 0 <= i < text.len() - 1 && #[trigger] text[i] == '$' && text[i + 1] == '{'
}

/// Whether each of `names` is a dimension, with the value at its place in
/// `values`.
pub open spec fn gives(dimensions: Dimensions, names: Seq<Seq<char>>, values: Seq<Seq<char>>) -> bool {
    &&& names.len() == values.len()
    &&& forall|i: int|
        0 <= i < names.len() ==> !(#[trigger] names[i]).contains('}') && dimensions.contains(
            (names[i], values[i]),
        )
}

/// Every placeholder is filled in with the value of its dimension, whatever
/// their number, and the text between them stays.
pub proof fn law_every_placeholder_is_filled_in(
    plain: Seq<Seq<char>>,
    names: Seq<Seq<char>>,
    values: Seq<Seq<char>>,
    dimensions: Dimensions,
)
    requires
        sorted(dimensions),
        plain.len() == names.len() + 1,
        gives(dimensions, names, values),
        forall|i: int| 0 <= i < plain.len() ==> !has_placeholder(#[trigger] plain[i]),
    ensures
        interpolated(woven(plain, placeholders(names)), dimensions) == Ok::<Seq<char>, Seq<char>>(
            woven(plain, values),
        ),
{
    let template = woven(plain, placeholders(names));
    let nothing = Seq::<char>::empty();
    assert(find(nothing, "${"@) is None) by {
        reveal_strlit("${");
        lemma_find_bounds(nothing, "${"@);
    }
    assert(template + nothing =~= template);
    assert(woven(plain, values) + nothing =~= woven(plain, values));
    lemma_filled_before(template, plain, names, values, dimensions, nothing);
}

/// The first placeholder that is no dimension makes the text invalid, and so
/// does one that nothing closes, whatever was filled in before.
pub proof fn law_bad_placeholders_are_refused(
    plain: Seq<Seq<char>>,
    names: Seq<Seq<char>>,
    values: Seq<Seq<char>>,
    dimensions: Dimensions,
    name: Seq<char>,
    rest: Seq<char>,
)
    requires
        sorted(dimensions),
        plain.len() == names.len() + 1,
        gives(dimensions, names, values),
        forall|i: int| 0 <= i < plain.len() ==> !has_placeholder(#[trigger] plain[i]),
        !name.contains('}'),
        forall|value: Seq<char>| !dimensions.contains((name, value)),
    ensures
        ({
            let unknown = woven(plain, placeholders(names)) + (seq!['$', '{'] + name + seq!['}']
                + rest);
            interpolated(unknown, dimensions) == Err::<Seq<char>, Seq<char>>(
                unknown_placeholder(name, unknown),
            )
        }),
        ({
            let open = woven(plain, placeholders(names)) + (seq!['$', '{'] + name);
            interpolated(open, dimensions) == Err::<Seq<char>, Seq<char>>(
                unterminated_placeholder(open),
            )
        }),
{
    reveal_strlit("${");
    let mark = seq!['$', '{'];
    assert("${"@ =~= mark);
    let unknown_tail = mark + name + seq!['}'] + rest;
    let unknown = woven(plain, placeholders(names)) + unknown_tail;
    lemma_filled_before(unknown, plain, names, values, dimensions, unknown_tail);
    assert("${"@.is_prefix_of(unknown_tail));
    let after = unknown_tail.skip(2);
    assert(after =~= name + seq!['}'] + rest);
    lemma_closed(name, rest);
    assert(after.take(name.len() as int) =~= name);
    lemma_lookup_some(dimensions, name);
    if lookup(dimensions, name) is Some {
        assert(dimensions.contains((name, lookup(dimensions, name)->0)));
    }
    let open_tail = mark + name;
    let open = woven(plain, placeholders(names)) + open_tail;
    lemma_filled_before(open, plain, names, values, dimensions, open_tail);
    assert("${"@.is_prefix_of(open_tail));
    assert(open_tail.skip(2) =~= name);
    lemma_position_bounds(name, '}');
}

/// Where no value of a dimension is empty, begins with `{`, ends with `$` or
/// holds a placeholder, no placeholder is left.
pub proof fn law_no_placeholder_is_left(value: Seq<char>, dimensions: Dimensions)
    requires
        forall|i: int|
            0 <= i < dimensions.len() ==> (#[trigger] dimensions[i]).1.len() > 0
                && dimensions[i].1[0] != '{' && dimensions[i].1.last() != '$' && !has_placeholder(
                dimensions[i].1,
            ),
    ensures
        interpolated(value, dimensions) matches Ok(text) ==> !has_placeholder(text),
{
    lemma_nothing_left(value, value, dimensions);
}

proof fn lemma_closed(name: Seq<char>, rest: Seq<char>)
    requires
        !name.contains('}'),
    ensures
        position(name + seq!['}'] + rest, '}') == name.len(),
{
    let text = name + seq!['}'] + rest;
    assert forall|j: int| 0 <= j < name.len() implies #[trigger] text[j] != '}' by {
        assert(text[j] == name[j]);
        assert(name.contains(name[j]));
    }
    lemma_position(text, '}', name.len() as int);
}

/// The first placeholder of a text is where the text before it ends.
proof fn lemma_first_placeholder(before: Seq<char>, after: Seq<char>)
    requires
        !has_placeholder(before),
    ensures
        find(before + (seq!['$', '{'] + after), "${"@) == Some(before.len() as int),
        find(before, "${"@) is None,
{
    reveal_strlit("${");
    let mark = "${"@;
    let text = before + (seq!['$', '{'] + after);
    let k = before.len() as int;
    assert(text.subrange(k, k + 2) =~= mark);
    assert forall|j: int| 0 <= j < k implies !#[trigger] stands_at(text, mark, j) by {
        if stands_at(text, mark, j) {
            assert(text.subrange(j, j + 2)[0] == '$' && text.subrange(j, j + 2)[1] == '{');
            assert(text[j] == '$' && text[j + 1] == '{');
            if j + 1 < k {
                assert(before[j] == '$' && before[j + 1] == '{');
            }
        }
    }
    lemma_found_at(text, mark, k);
    lemma_find_bounds(before, mark);
    if let Some(i) = find(before, mark) {
        assert(before.subrange(i, i + 2)[0] == '$' && before.subrange(i, i + 2)[1] == '{');
        assert(before[i] == '$' && before[i + 1] == '{');
    }
}

/// A text without placeholders stays as it is.
#[verifier::rlimit(40)]
proof fn lemma_filled_last(
    value: Seq<char>,
    plain: Seq<char>,
    dimensions: Dimensions,
    tail: Seq<char>,
)
    requires
        !has_placeholder(plain),
        tail.len() == 0 || (tail.len() >= 2 && tail[0] == '$' && tail[1] == '{'),
    ensures
        replaced(value, plain + tail, dimensions) == (match replaced(value, tail, dimensions) {
            Ok(filled) => Ok::<Seq<char>, Seq<char>>(plain + filled),
            Err(message) => Err::<Seq<char>, Seq<char>>(message),
        }),
{
    reveal_strlit("${");
    let mark = seq!['$', '{'];
    assert("${"@ =~= mark);
    let text = plain + tail;
    lemma_first_placeholder(plain, tail.skip(2));
    if tail.len() == 0 {
        assert(text =~= plain);
        lemma_find_bounds(tail, "${"@);
        assert(plain + tail =~= plain);
    } else {
        assert(mark + tail.skip(2) =~= tail);
        assert("${"@.is_prefix_of(tail));
        let k = plain.len() as int;
        assert(text.skip(k + 2) =~= tail.skip(2));
        assert(text.take(k) =~= plain);
        assert(tail.take(0) =~= Seq::<char>::empty());
        let after = tail.skip(2);
        let end = position(after, '}');
        lemma_position_bounds(after, '}');
        if end < after.len() && lookup(dimensions, after.take(end)) is Some && replaced(
            value,
            after.skip(end + 1),
            dimensions,
        ) is Ok {
            let replacement = lookup(dimensions, after.take(end))->0;
            let behind = replaced(value, after.skip(end + 1), dimensions)->Ok_0;
            assert(plain + replacement + behind =~= plain + (tail.take(0) + replacement + behind));
        }
    }
}

/// What is filled in does not depend on what follows it.
#[verifier::rlimit(40)]
proof fn lemma_filled_before(
    value: Seq<char>,
    plain: Seq<Seq<char>>,
    names: Seq<Seq<char>>,
    values: Seq<Seq<char>>,
    dimensions: Dimensions,
    tail: Seq<char>,
)
    requires
        sorted(dimensions),
        plain.len() == names.len() + 1,
        gives(dimensions, names, values),
        forall|i: int| 0 <= i < plain.len() ==> !has_placeholder(#[trigger] plain[i]),
        tail.len() == 0 || (tail.len() >= 2 && tail[0] == '$' && tail[1] == '{'),
    ensures
        replaced(value, woven(plain, placeholders(names)) + tail, dimensions) == (match replaced(
            value,
            tail,
            dimensions,
        ) {
            Ok(filled) => Ok::<Seq<char>, Seq<char>>(woven(plain, values) + filled),
            Err(message) => Err::<Seq<char>, Seq<char>>(message),
        }),
    decreases names.len(),
{
    reveal_strlit("${");
    let mark = seq!['$', '{'];
    assert("${"@ =~= mark);
    assert(!has_placeholder(plain[0]));
    let marks = placeholders(names);
    let text = woven(plain, marks) + tail;
    if names.len() == 0 {
        lemma_filled_last(value, plain[0], dimensions, tail);
    } else {
        let rest_plain = plain.drop_first();
        let rest_names = names.drop_first();
        let rest_values = values.drop_first();
        assert forall|i: int| 0 <= i < rest_plain.len() implies !has_placeholder(
            #[trigger] rest_plain[i],
        ) by {
            assert(rest_plain[i] == plain[i + 1]);
        }
        assert forall|i: int| 0 <= i < rest_names.len() implies !(
        #[trigger] rest_names[i]).contains('}') && dimensions.contains(
            (rest_names[i], rest_values[i]),
        ) by {
            assert(rest_names[i] == names[i + 1] && rest_values[i] == values[i + 1]);
        }
        lemma_filled_before(value, rest_plain, rest_names, rest_values, dimensions, tail);
        assert(marks.drop_first() =~= placeholders(rest_names));
        let name = names[0];
        let rest = woven(rest_plain, placeholders(rest_names)) + tail;
        let after = name + seq!['}'] + rest;
        assert(text =~= plain[0] + (mark + after));
        lemma_first_placeholder(plain[0], after);
        let k = plain[0].len() as int;
        assert(text.skip(k + 2) =~= after);
        assert(text.take(k) =~= plain[0]);
        lemma_closed(name, rest);
        assert(after.take(name.len() as int) =~= name);
        assert(after.skip(name.len() as int + 1) =~= rest);
        let at = choose|at: int|
            0 <= at < dimensions.len() && dimensions[at] == (names[0], values[0]);
        lemma_lookup_index(dimensions, at);
        assert(lookup(dimensions, name) == Some(values[0]));
        if replaced(value, tail, dimensions) is Ok {
            let filled = replaced(value, tail, dimensions)->Ok_0;
            assert(plain[0] + values[0] + (woven(rest_plain, rest_values) + filled) =~= (plain[0]
                + values[0] + woven(rest_plain, rest_values)) + filled);
        }
    }
}

proof fn lemma_nothing_left(value: Seq<char>, rest: Seq<char>, dimensions: Dimensions)
    requires
        forall|i: int|
            0 <= i < dimensions.len() ==> (#[trigger] dimensions[i]).1.len() > 0
                && dimensions[i].1[0] != '{' && dimensions[i].1.last() != '$' && !has_placeholder(
                dimensions[i].1,
            ),
    ensures
        replaced(value, rest, dimensions) matches Ok(text) ==> !has_placeholder(text),
    decreases rest.len(),
{
    reveal_strlit("${");
    let mark = "${"@;
    law_the_first_occurrence_is_found(rest, mark);
    match find(rest, mark) {
        None => {
            if has_placeholder(rest) {
                let i = choose|i: int|
                    0 <= i < rest.len() - 1 && #[trigger] rest[i] == '$' && rest[i + 1] == '{';
                assert(rest.subrange(i, i + 2) =~= mark);
                assert(stands_at(rest, mark, i));
            }
        },
        Some(start) => {
            let after = rest.skip(start + 2);
            let end = position(after, '}');
            lemma_position_bounds(after, '}');
            if end < after.len() && replaced(value, rest, dimensions) is Ok {
                lemma_nothing_left(value, after.skip(end + 1), dimensions);
                let key = after.take(end);
                lemma_lookup_some(dimensions, key);
                let replacement = lookup(dimensions, key)->0;
                let tail = replaced(value, after.skip(end + 1), dimensions)->Ok_0;
                let at = choose|at: int|
                    0 <= at < dimensions.len() && #[trigger] dimensions[at] == (key, replacement);
                assert(dimensions[at].1 == replacement);
                let head = rest.take(start);
                let text = head + replacement + tail;
                if has_placeholder(text) {
                    let i = choose|i: int|
                        0 <= i < text.len() - 1 && #[trigger] text[i] == '$' && text[i + 1] == '{';
                    let a = head.len() as int;
                    let b = a + replacement.len();
                    if i + 1 < a {
                        assert(rest[i] == '$' && rest[i + 1] == '{');
                        assert(rest.subrange(i, i + 2) =~= mark);
                        assert(stands_at(rest, mark, i));
                    } else if i + 1 == a {
                        assert(text[i + 1] == replacement[0]);
                    } else if i + 1 < b {
                        assert(replacement[i - a] == '$' && replacement[i - a + 1] == '{');
                    } else if i + 1 == b {
                        assert(text[i] == replacement.last());
                    } else {
                        assert(tail[i - b] == '$' && tail[i - b + 1] == '{');
                    }
                }
            }
        },
    }
}

/// Fixing dimensions only narrows the set of instances.
pub proof fn law_fixed_instances_are_instances(
    matrix: Seq<(Seq<char>, Seq<Seq<char>>)>,
    fixed: Dimensions,
)
    ensures
        instances_of(matrix, seq![]) is Ok,
        instances_of(matrix, fixed) is Ok ==> forall|d: Dimensions| #[trigger]
            instances_of(matrix, fixed)->Ok_0.contains(d) ==> instances_of(
                matrix,
                seq![],
            )->Ok_0.contains(d),
    decreases matrix.len(),
{
    if matrix.len() > 0 {
        law_fixed_instances_are_instances(matrix.drop_last(), fixed);
        let key = matrix.last().0;
        let values = matrix.last().1;
        assert(lookup(Seq::<(Seq<char>, Seq<char>)>::empty(), key) is None);
        if instances_of(matrix, fixed) is Ok {
            let earlier = instances_of(matrix.drop_last(), fixed)->Ok_0;
            let all = instances_of(matrix.drop_last(), seq![])->Ok_0;
            let chosen = selected_values(key, values, fixed)->Ok_0;
            assert forall|v: Seq<char>| chosen.contains(v) implies values.contains(v) by {
                if lookup(fixed, key) is Some {
                    assert(chosen == seq![lookup(fixed, key)->0]);
                }
            }
            assert forall|d: Dimensions| #[trigger]
                instances_of(matrix, fixed)->Ok_0.contains(d) implies instances_of(
                matrix,
                seq![],
            )->Ok_0.contains(d) by {
                lemma_product_contains(earlier, key, chosen, d);
                let (e, v) = choose|e: Dimensions, v: Seq<char>|
                    earlier.contains(e) && chosen.contains(v) && d == #[trigger] e.push((key, v));
                assert(all.contains(e));
                lemma_contains_product(all, key, values, e, v);
            }
        }
    } else {
        assert(instances_of(matrix, fixed) == instances_of(matrix, seq![]));
    }
}

/// The values that dimension `p` takes: the fixed one where there is one.
pub open spec fn values_at(
    matrix: Seq<(Seq<char>, Seq<Seq<char>>)>,
    fixed: Dimensions,
    p: int,
) -> Seq<Seq<char>> {
    match lookup(fixed, matrix[p].0) {
        Some(value) => seq![value],
        None => matrix[p].1,
    }
}

/// Whether an instance gives every dimension of the matrix, in order, one of
/// its values.
pub open spec fn is_combination(
    matrix: Seq<(Seq<char>, Seq<Seq<char>>)>,
    fixed: Dimensions,
    instance: Dimensions,
) -> bool {
    &&& instance.len() == matrix.len()
    &&& forall|p: int|
        0 <= p < matrix.len() ==> (#[trigger] instance[p]).0 == matrix[p].0 && values_at(
            matrix,
            fixed,
            p,
        ).contains(instance[p].1)
}

/// Whether `a` stands before `b` among `values`.
pub open spec fn stands_before(values: Seq<Seq<char>>, a: Seq<char>, b: Seq<char>) -> bool {
    exists|u: int, v: int|
        0 <= u < v < values.len() && #[trigger] values[u] == a && #[trigger] values[v] == b
}

/// Whether `a` comes before `b`: in the first dimension in which they differ,
/// its value stands before the other's.
pub open spec fn comes_before(
    matrix: Seq<(Seq<char>, Seq<Seq<char>>)>,
    fixed: Dimensions,
    a: Dimensions,
    b: Dimensions,
) -> bool {
    exists|p: int|
        0 <= p < matrix.len() && p < a.len() && p < b.len() && a.take(p) == b.take(p)
            && #[trigger] stands_before(values_at(matrix, fixed, p), a[p].1, b[p].1)
}

/// Whether the instances are all combinations, each before the later ones.
spec fn lists_combinations(
    matrix: Seq<(Seq<char>, Seq<Seq<char>>)>,
    fixed: Dimensions,
    list: Seq<Dimensions>,
) -> bool {
    &&& forall|d: Dimensions| #[trigger] list.contains(d) <==> is_combination(matrix, fixed, d)
    &&& forall|i: int, j: int|
        0 <= i < j < list.len() ==> comes_before(
            matrix,
            fixed,
            #[trigger] list[i],
            #[trigger] list[j],
        )
}

proof fn lemma_before_pushed(
    matrix: Seq<(Seq<char>, Seq<Seq<char>>)>,
    fixed: Dimensions,
    a: Dimensions,
    b: Dimensions,
    x: (Seq<char>, Seq<char>),
    y: (Seq<char>, Seq<char>),
)
    requires
        matrix.len() > 0,
        comes_before(matrix.drop_last(), fixed, a, b),
    ensures
        comes_before(matrix, fixed, a.push(x), b.push(y)),
{
    let less = matrix.drop_last();
    let p = choose|p: int|
        0 <= p < less.len() && p < a.len() && p < b.len() && a.take(p) == b.take(p)
            && #[trigger] stands_before(values_at(less, fixed, p), a[p].1, b[p].1);
    assert(a.push(x).take(p) =~= a.take(p));
    assert(b.push(y).take(p) =~= b.take(p));
    assert(values_at(matrix, fixed, p) == values_at(less, fixed, p));
    assert(stands_before(values_at(matrix, fixed, p), a.push(x)[p].1, b.push(y)[p].1));
}

/// Whether `d` is one of `instances` with one of `values` behind it.
spec fn is_extended(
    instances: Seq<Dimensions>,
    key: Seq<char>,
    values: Seq<Seq<char>>,
    d: Dimensions,
) -> bool {
    exists|i: int, j: int|
        0 <= i < instances.len() && 0 <= j < values.len() && d == (#[trigger] instances[i]).push(
            (key, #[trigger] values[j]),
        )
}

proof fn lemma_product_members(
    instances: Seq<Dimensions>,
    key: Seq<char>,
    values: Seq<Seq<char>>,
    d: Dimensions,
)
    ensures
        product(instances, key, values).contains(d) <==> is_extended(instances, key, values, d),
    decreases instances.len(),
{
    if instances.len() > 0 {
        let less = instances.drop_last();
        let front = product(less, key, values);
        let back = with_values(instances.last(), key, values);
        let all = front + back;
        lemma_product_members(less, key, values, d);
        assert(instances[instances.len() - 1] == instances.last());
        if all.contains(d) {
            let k = choose|k: int| 0 <= k < all.len() && all[k] == d;
            if k < front.len() {
                assert(front[k] == d);
                let (i, j) = choose|i: int, j: int|
                    0 <= i < less.len() && 0 <= j < values.len() && d == (
                    #[trigger] less[i]).push((key, #[trigger] values[j]));
                assert(instances[i] == less[i]);
            } else {
                assert(back[k - front.len()] == d);
                assert(d == instances[instances.len() - 1].push((key, values[k - front.len()])));
            }
        }
        if is_extended(instances, key, values, d) {
            let (i, j) = choose|i: int, j: int|
                0 <= i < instances.len() && 0 <= j < values.len() && d == (
                #[trigger] instances[i]).push((key, #[trigger] values[j]));
            if i < less.len() {
                assert(less[i] == instances[i]);
                assert(d == less[i].push((key, values[j])));
                assert(front.contains(d));
                let k = choose|k: int| 0 <= k < front.len() && front[k] == d;
                assert(all[k] == d);
            } else {
                assert(back[j] == d);
                assert(all[front.len() + j] == d);
            }
        }
    }
}

proof fn lemma_product_order(
    matrix: Seq<(Seq<char>, Seq<Seq<char>>)>,
    fixed: Dimensions,
    instances: Seq<Dimensions>,
)
    requires
        matrix.len() > 0,
        forall|i: int|
            0 <= i < instances.len() ==> (#[trigger] instances[i]).len() == matrix.len() - 1,
        forall|i: int, j: int|
            0 <= i < j < instances.len() ==> comes_before(
                matrix.drop_last(),
                fixed,
                #[trigger] instances[i],
                #[trigger] instances[j],
            ),
    ensures
        ({
            let last = matrix.len() - 1;
            let all = product(instances, matrix[last].0, values_at(matrix, fixed, last));
            forall|i: int, j: int|
                0 <= i < j < all.len() ==> comes_before(
                    matrix,
                    fixed,
                    #[trigger] all[i],
                    #[trigger] all[j],
                )
        }),
    decreases instances.len(),
{
    if instances.len() > 0 {
        let last = matrix.len() - 1;
        let key = matrix[last].0;
        let values = values_at(matrix, fixed, last);
        let less = instances.drop_last();
        let own = instances.last();
        let front = product(less, key, values);
        let back = with_values(own, key, values);
        let all = product(instances, key, values);
        assert forall|i: int| 0 <= i < less.len() implies (#[trigger] less[i]).len()
            == matrix.len() - 1 by {
            assert(less[i] == instances[i]);
        }
        assert forall|i: int, j: int| 0 <= i < j < less.len() implies comes_before(
            matrix.drop_last(),
            fixed,
            #[trigger] less[i],
            #[trigger] less[j],
        ) by {
            assert(less[i] == instances[i] && less[j] == instances[j]);
        }
        lemma_product_order(matrix, fixed, less);
        assert(instances[instances.len() - 1] == own);
        assert forall|i: int, j: int| 0 <= i < j < all.len() implies comes_before(
            matrix,
            fixed,
            #[trigger] all[i],
            #[trigger] all[j],
        ) by {
            if j < front.len() {
                assert(all[i] == front[i] && all[j] == front[j]);
            } else {
                let v = j - front.len();
                assert(all[j] == back[v]);
                assert(all[j] == own.push((key, values[v])));
                if i < front.len() {
                    assert(all[i] == front[i]);
                    lemma_product_members(less, key, values, front[i]);
                    assert(front.contains(front[i]));
                    let (a, u) = choose|a: int, u: int|
                        0 <= a < less.len() && 0 <= u < values.len() && front[i] == (
                        #[trigger] less[a]).push((key, #[trigger] values[u]));
                    assert(instances[a] == less[a]);
                    lemma_before_pushed(
                        matrix,
                        fixed,
                        less[a],
                        own,
                        (key, values[u]),
                        (key, values[v]),
                    );
                } else {
                    let u = i - front.len();
                    assert(all[i] == back[u]);
                    assert(all[i] == own.push((key, values[u])));
                    assert(all[i].take(last) =~= all[j].take(last));
                    assert(values[u] == all[i][last].1 && values[v] == all[j][last].1);
                    assert(stands_before(values, all[i][last].1, all[j][last].1));
                }
            }
        }
    }
}

proof fn lemma_lists_combinations(
    matrix: Seq<(Seq<char>, Seq<Seq<char>>)>,
    fixed: Dimensions,
)
    requires
        instances_of(matrix, fixed) is Ok,
    ensures
        lists_combinations(matrix, fixed, instances_of(matrix, fixed)->Ok_0),
    decreases matrix.len(),
{
    let list = instances_of(matrix, fixed)->Ok_0;
    if matrix.len() == 0 {
        let none: Dimensions = seq![];
        assert(list == seq![none]);
        assert(list[0] == none);
        assert forall|d: Dimensions| #[trigger] list.contains(d) <==> is_combination(
            matrix,
            fixed,
            d,
        ) by {
            if d.len() == 0 {
                assert(d =~= none);
            }
        }
    } else {
        let less = matrix.drop_last();
        let last = matrix.len() - 1;
        let key = matrix[last].0;
        let values = values_at(matrix, fixed, last);
        let earlier = instances_of(less, fixed)->Ok_0;
        lemma_lists_combinations(less, fixed);
        assert(list == product(earlier, key, values));
        assert forall|i: int| 0 <= i < earlier.len() implies (#[trigger] earlier[i]).len()
            == matrix.len() - 1 by {
            assert(earlier.contains(earlier[i]));
        }
        lemma_product_order(matrix, fixed, earlier);
        assert forall|d: Dimensions| #[trigger] list.contains(d) <==> is_combination(
            matrix,
            fixed,
            d,
        ) by {
            lemma_product_members(earlier, key, values, d);
            if list.contains(d) {
                let (i, j) = choose|i: int, j: int|
                    0 <= i < earlier.len() && 0 <= j < values.len() && d == (
                    #[trigger] earlier[i]).push((key, #[trigger] values[j]));
                assert(earlier.contains(earlier[i]));
                assert(is_combination(less, fixed, earlier[i]));
                assert forall|p: int| 0 <= p < matrix.len() implies (#[trigger] d[p]).0
                    == matrix[p].0 && values_at(matrix, fixed, p).contains(d[p].1) by {
                    if p < last {
                        assert(d[p] == earlier[i][p]);
                        assert(matrix[p] == less[p]);
                    } else {
                        assert(values[j] == d[p].1);
                    }
                }
            }
            if is_combination(matrix, fixed, d) {
                let front = d.drop_last();
                assert forall|p: int| 0 <= p < less.len() implies (#[trigger] front[p]).0
                    == less[p].0 && values_at(less, fixed, p).contains(front[p].1) by {
                    assert(front[p] == d[p]);
                    assert(matrix[p] == less[p]);
                }
                assert(is_combination(less, fixed, front));
                assert(earlier.contains(front));
                let i = choose|i: int| 0 <= i < earlier.len() && earlier[i] == front;
                assert(d[last].0 == key);
                let j = choose|j: int| 0 <= j < values.len() && values[j] == d[last].1;
                assert(d =~= earlier[i].push((key, values[j])));
            }
        }
    }
}

/// The instances of a matrix are its combinations: each gives every dimension,
/// in the order of the keys, one of its values, or the fixed one, and every
/// such combination is listed.
pub proof fn law_instances_are_the_combinations(
    matrix: Seq<(Seq<char>, Seq<Seq<char>>)>,
    fixed: Dimensions,
    instance: Dimensions,
)
    requires
        instances_of(matrix, fixed) is Ok,
    ensures
        instances_of(matrix, fixed)->Ok_0.contains(instance) <==> is_combination(
            matrix,
            fixed,
            instance,
        ),
{
    lemma_lists_combinations(matrix, fixed);
}

/// The instances of a matrix are in order: an earlier one has, in the first
/// dimension in which they differ, the value that stands first. Where no
/// dimension repeats a value, no instance is listed twice.
pub proof fn law_instances_are_in_order(
    matrix: Seq<(Seq<char>, Seq<Seq<char>>)>,
    fixed: Dimensions,
    i: int,
    j: int,
)
    requires
        instances_of(matrix, fixed) is Ok,
        0 <= i < j < instances_of(matrix, fixed)->Ok_0.len(),
    ensures
        comes_before(
            matrix,
            fixed,
            instances_of(matrix, fixed)->Ok_0[i],
            instances_of(matrix, fixed)->Ok_0[j],
        ),
        (forall|p: int| 0 <= p < matrix.len() ==> (#[trigger] matrix[p]).1.no_duplicates())
            ==> instances_of(matrix, fixed)->Ok_0[i] != instances_of(matrix, fixed)->Ok_0[j],
{
    lemma_lists_combinations(matrix, fixed);
    let a = instances_of(matrix, fixed)->Ok_0[i];
    let b = instances_of(matrix, fixed)->Ok_0[j];
    assert(comes_before(matrix, fixed, a, b));
    let p = choose|p: int|
        0 <= p < matrix.len() && p < a.len() && p < b.len() && a.take(p) == b.take(p)
            && #[trigger] stands_before(values_at(matrix, fixed, p), a[p].1, b[p].1);
    if forall|p: int| 0 <= p < matrix.len() ==> (#[trigger] matrix[p]).1.no_duplicates() {
        assert(matrix[p].1.no_duplicates());
    }
}

/// Whether names can be told apart again in the name of an instance.
pub open spec fn is_nameable(dimensions: Dimensions) -> bool {
    &&& sorted(dimensions)
    &&& forall|i: int|
        0 <= i < dimensions.len() ==> {
            let (key, value) = #[trigger] dimensions[i];
            key.len() > 0 && value.len() > 0 && !key.contains('=') && !key.contains(',')
                && !value.contains(',')
        }
}

/// The name of an instance tells its task and its dimensions.
pub proof fn law_instance_name_round_trip(base: Seq<char>, dimensions: Dimensions)
    requires
        base.len() > 0,
        !base.contains('['),
        is_nameable(dimensions),
    ensures
        base_name(instance_name(base, dimensions)) == Some(base),
        dimensions_of(instance_name(base, dimensions)) == Some(dimensions),
{
    let name = instance_name(base, dimensions);
    lemma_position_bounds(base, '[');
    if dimensions.len() == 0 {
        assert(dimensions =~= seq![]);
    } else {
        reveal_strlit("[");
        reveal_strlit("]");
        reveal_strlit(",");
        let pairs = dimension_pairs(dimensions);
        let body = join(pairs, ","@);
        assert(","@ =~= seq![',']);
        assert(name == base + "["@ + body + "]"@);
        assert forall|j: int| 0 <= j < base.len() implies name[j] != '[' by {
            assert(name[j] == base[j]);
            assert(base.contains(base[j]));
        }
        assert(name[base.len() as int] == '[');
        lemma_position(name, '[', base.len() as int);
        assert(name.last() == ']');
        assert(name.take(base.len() as int) =~= base);
        assert(name.subrange(base.len() as int + 1, name.len() - 1) =~= body);
        lemma_pairs_plain(dimensions);
        crate::text::law_join_split(pairs, ',');
        lemma_pairs_read_back(dimensions);
        lemma_body_nonempty(dimensions);
    }
}

proof fn lemma_pairs_plain(dimensions: Dimensions)
    requires
        is_nameable(dimensions),
    ensures
        forall|i: int|
            0 <= i < dimensions.len() ==> !(#[trigger] dimension_pairs(dimensions)[i]).contains(
                ',',
            ),
{
    reveal_strlit("=");
    assert forall|i: int| 0 <= i < dimensions.len() implies !(#[trigger] dimension_pairs(
        dimensions,
    )[i]).contains(',') by {
        let (key, value) = dimensions[i];
        let pair = dimension_pairs(dimensions)[i];
        assert(pair == key + "="@ + value);
        if pair.contains(',') {
            let k = choose|k: int| 0 <= k < pair.len() && pair[k] == ',';
            if k < key.len() {
                assert(key[k] == ',');
            } else if k > key.len() {
                assert(value[k - key.len() - 1] == ',');
            }
        }
    }
}

proof fn lemma_body_nonempty(dimensions: Dimensions)
    requires
        is_nameable(dimensions),
        dimensions.len() > 0,
    ensures
        join(dimension_pairs(dimensions), ","@).len() > 0,
{
    reveal_strlit("=");
    let pairs = dimension_pairs(dimensions);
    assert(pairs.last() == dimensions.last().0 + "="@ + dimensions.last().1);
    assert(pairs[pairs.len() - 1].len() > 0);
}

proof fn lemma_pairs_read_back(dimensions: Dimensions)
    requires
        is_nameable(dimensions),
    ensures
        pairs_dimensions(dimension_pairs(dimensions)) == Some(dimensions),
    decreases dimensions.len(),
{
    let pairs = dimension_pairs(dimensions);
    if dimensions.len() == 0 {
        assert(dimensions =~= seq![]);
    } else {
        reveal_strlit("=");
        let rest = dimensions.drop_last();
        assert(is_nameable(rest)) by {
            assert forall|a: int, b: int| 0 <= a < b < rest.len() implies text_lt(
                #[trigger] rest[a].0,
                #[trigger] rest[b].0,
            ) by {
                assert(rest[a] == dimensions[a] && rest[b] == dimensions[b]);
            }
            assert forall|i: int| 0 <= i < rest.len() implies {
                let (key, value) = #[trigger] rest[i];
                key.len() > 0 && value.len() > 0 && !key.contains('=') && !key.contains(',')
                    && !value.contains(',')
            } by {
                assert(rest[i] == dimensions[i]);
            }
        }
        lemma_pairs_read_back(rest);
        assert(pairs.drop_last() =~= dimension_pairs(rest));
        let (key, value) = dimensions[dimensions.len() - 1];
        let pair = pairs.last();
        assert(pair == key + "="@ + value);
        assert forall|j: int| 0 <= j < key.len() implies pair[j] != '=' by {
            assert(pair[j] == key[j]);
            assert(key.contains(key[j]));
        }
        assert(pair[key.len() as int] == '=');
        lemma_position(pair, '=', key.len() as int);
        assert(pair.take(key.len() as int) =~= key);
        assert(pair.skip(key.len() as int + 1) =~= value);
        assert forall|j: int| 0 <= j < rest.len() implies text_lt(#[trigger] rest[j].0, key) by {
            assert(rest[j] == dimensions[j]);
            assert(text_lt(dimensions[j].0, dimensions[dimensions.len() - 1].0));
        }
        crate::map::lemma_lookup_some(rest, key);
        if lookup(rest, key) is Some {
            let i = choose|i: int| 0 <= i < rest.len() && #[trigger] rest[i].0 == key;
            crate::text::lemma_text_lt_irreflexive(key);
            assert(text_lt(rest[i].0, key));
        }
        lemma_inserted_last(rest, key, value);
        assert(rest.push((key, value)) =~= dimensions);
    }
}

pub proof fn lemma_product_contains(
    instances: Seq<Dimensions>,
    key: Seq<char>,
    values: Seq<Seq<char>>,
    d: Dimensions,
)
    requires
        product(instances, key, values).contains(d),
    ensures
        exists|e: Dimensions, v: Seq<char>|
            instances.contains(e) && values.contains(v) && d == #[trigger] e.push((key, v)),
    decreases instances.len(),
{
    if instances.len() > 0 {
        let head = product(instances.drop_last(), key, values);
        let tail = with_values(instances.last(), key, values);
        let i = choose|i: int| 0 <= i < (head + tail).len() && (head + tail)[i] == d;
        if i < head.len() {
            assert(head[i] == d);
            lemma_product_contains(instances.drop_last(), key, values, d);
            let (e, v) = choose|e: Dimensions, v: Seq<char>|
                instances.drop_last().contains(e) && values.contains(v) && d == #[trigger] e.push(
                    (key, v),
                );
            let k = choose|k: int|
                0 <= k < instances.drop_last().len() && instances.drop_last()[k] == e;
            assert(instances[k] == e);
            assert(instances.contains(e) && d == e.push((key, v)));
        } else {
            let v = values[i - head.len()];
            assert(tail[i - head.len()] == instances.last().push((key, v)));
            assert(instances[instances.len() - 1] == instances.last());
            assert(instances.contains(instances.last()) && values.contains(v));
        }
    }
}

pub proof fn lemma_contains_product(
    instances: Seq<Dimensions>,
    key: Seq<char>,
    values: Seq<Seq<char>>,
    e: Dimensions,
    v: Seq<char>,
)
    requires
        instances.contains(e),
        values.contains(v),
    ensures
        product(instances, key, values).contains(e.push((key, v))),
    decreases instances.len(),
{
    let head = product(instances.drop_last(), key, values);
    let tail = with_values(instances.last(), key, values);
    if instances.last() == e {
        let k = choose|k: int| 0 <= k < values.len() && values[k] == v;
        assert(tail[k] == e.push((key, v)));
        assert((head + tail)[head.len() + k] == e.push((key, v)));
    } else {
        let k = choose|k: int| 0 <= k < instances.len() && instances[k] == e;
        assert(instances.drop_last()[k] == e);
        lemma_contains_product(instances.drop_last(), key, values, e, v);
        let m = choose|m: int| 0 <= m < head.len() && head[m] == e.push((key, v));
        assert((head + tail)[m] == e.push((key, v)));
    }
}

// ---------------------------------------------------------------------------
// Executable functions
// ---------------------------------------------------------------------------
/// The task that an instance name belongs to.
pub fn base_task_name(task: &str) -> (r: Result<String, ()>)
    ensures
        match r {
            Ok(base) => base_name(task@) == Some(base@),
            Err(_) => base_name(task@) is None,
        },
{
    let chars = chars_of(task);
    let bracket: usize = position_from(&chars, '[', 0);
    assert(chars@.skip(0) =~= task@);
    if bracket == chars.len() {
        return Ok(task.to_owned());
    }
    if chars[chars.len() - 1] == ']' && bracket > 0 {
        Ok(text_of(&chars, 0, bracket))
    } else {
        Err(())
    }
}

/// The dimensions that an instance name carries between its brackets.
#[verifier::loop_isolation(false)]
pub fn task_dimensions(task: &str) -> (r: Result<TextMap<String>, ()>)
    ensures
        match r {
            Ok(dimensions) => dimensions_of(task@) == Some(text_entries(dimensions@)),
            Err(_) => dimensions_of(task@) is None,
        },
{
    let chars = chars_of(task);
    let bracket: usize = position_from(&chars, '[', 0);
    assert(chars@.skip(0) =~= task@);
    let mut dimensions: TextMap<String> = TextMap::new();
    if bracket == chars.len() {
        assert(text_entries(dimensions@) =~= seq![]);
        return Ok(dimensions);
    }
    if chars[chars.len() - 1] != ']' {
        return Err(());
    }
    if bracket + 2 == chars.len() {
        return Err(());
    }
    let body = text_of(&chars, bracket + 1, chars.len() - 1);
    let pairs = split_text(body.as_str(), ',');
    let ghost all = split(body@, ',');
    assert(text_entries(dimensions@) =~= seq![]);
    assert(all.take(0) =~= seq![]);
    let mut i: usize = 0;
    while i < pairs.len()
        invariant
            i <= pairs@.len(),
            pairs_dimensions(all.take(i as int)) == Some(text_entries(dimensions@)),
        decreases pairs.len() - i,
    {
        let pair = chars_of(pairs[i].as_str());
        let ghost next = all.take(i as int + 1);
        assert(next.drop_last() =~= all.take(i as int));
        assert(next.last() == pair@);
        let equals: usize = position_from(&pair, '=', 0);
        assert(pair@.skip(0) =~= pair@);
        if equals == 0 || equals >= pair.len() - 1 {
            proof {
                lemma_none_stays(all, i as int + 1);
            }
            return Err(());
        }
        let key = text_of(&pair, 0, equals);
        let value = text_of(&pair, equals + 1, pair.len());
        assert(key@ =~= pair@.take(equals as int));
        assert(value@ =~= pair@.skip(equals as int + 1));
        proof {
            lemma_text_entries_lookup(dimensions@, key@);
            lemma_text_entries_inserted(dimensions@, key@, value);
        }
        if dimensions.insert(key, value) {
            proof {
                lemma_none_stays(all, i as int + 1);
            }
            return Err(());
        }
        i += 1;
    }
    assert(all.take(i as int) =~= all);
    Ok(dimensions)
}

/// Once a pair is malformed, no longer list of pairs names dimensions.
proof fn lemma_none_stays(pairs: Seq<Seq<char>>, k: int)
    requires
        0 <= k <= pairs.len(),
        pairs_dimensions(pairs.take(k)) is None,
    ensures
        pairs_dimensions(pairs) is None,
    decreases pairs.len() - k,
{
    if k < pairs.len() {
        assert(pairs.take(k + 1).drop_last() =~= pairs.take(k));
        lemma_none_stays(pairs, k + 1);
    } else {
        assert(pairs.take(k) =~= pairs);
    }
}

/// Whether `dimensions` names an instance of `matrix`.
#[verifier::loop_isolation(false)]
pub fn validate_matrix_instance(
    matrix: &TextMap<Vec<String>>,
    dimensions: &TextMap<String>,
) -> (r: Result<(), String>)
    ensures
        match r {
            Ok(_) => instance_problem(list_entries(matrix@), text_entries(dimensions@)) is None,
            Err(message) => instance_problem(list_entries(matrix@), text_entries(dimensions@))
                == Some(message@),
        },
{
    let ghost m = list_entries(matrix@);
    let ghost d = text_entries(dimensions@);
    if matrix.is_empty() {
        return if dimensions.is_empty() {
            Ok(())
        } else {
            Err("task is not matrix-parameterized".to_owned())
        };
    }
    if matrix.len() != dimensions.len() {
        return Err("matrix task references must specify every dimension".to_owned());
    }
    let mut i: usize = 0;
    assert(m.skip(0) =~= m);
    while i < matrix.len()
        invariant
            i <= m.len(),
            first_mismatch(m, d) == first_mismatch(m.skip(i as int), d),
        decreases m.len() - i,
    {
        let key = matrix.key_at(i);
        let ghost rest = m.skip(i as int);
        assert(rest[0] == (key@, texts(matrix@[i as int].1@)));
        proof {
            lemma_text_entries_lookup(dimensions@, key@);
        }
        match dimensions.get(key) {
            None => {
                let mut message = "matrix task reference is missing dimension '".to_owned();
                message.append(key);
                message.append("'");
                return Err(message);
            },
            Some(value) => {
                if !holds(matrix.value_at(i), value.as_str()) {
                    return Err(no_such_value(key, value.as_str()));
                }
            },
        }
        assert(rest.drop_first() =~= m.skip(i as int + 1));
        i += 1;
    }
    Ok(())
}

fn no_such_value(key: &str, value: &str) -> (r: String)
    ensures
        r@ == missing_value(key@, value@),
{
    let mut message = "matrix dimension '".to_owned();
    message.append(key);
    message.append("' has no value '");
    message.append(value);
    message.append("'");
    message
}

/// The name of an instance.
#[verifier::loop_isolation(false)]
pub fn format_task_instance(base: &str, dimensions: &TextMap<String>) -> (r: String)
    ensures
        r@ == instance_name(base@, text_entries(dimensions@)),
{
    if dimensions.is_empty() {
        return base.to_owned();
    }
    let ghost d = text_entries(dimensions@);
    let mut pairs: Vec<String> = Vec::new();
    let mut i: usize = 0;
    assert(texts(pairs@) =~= dimension_pairs(d).take(0));
    while i < dimensions.len()
        invariant
            i <= d.len(),
            texts(pairs@) == dimension_pairs(d).take(i as int),
        decreases d.len() - i,
    {
        let mut pair = dimensions.key_at(i).to_owned();
        pair.append("=");
        pair.append(dimensions.value_at(i).as_str());
        let ghost before = texts(pairs@);
        assert(dimension_pairs(d)[i as int] == pair@);
        pairs.push(pair);
        assert(texts(pairs@) =~= before.push(pair@));
        i += 1;
        assert(texts(pairs@) =~= dimension_pairs(d).take(i as int));
    }
    assert(texts(pairs@) =~= dimension_pairs(d));
    let mut name = base.to_owned();
    name.append("[");
    name.append(join_texts(&pairs, ",").as_str());
    name.append("]");
    name
}

/// What a list of instances says.
pub open spec fn instance_list(list: Seq<TextMap<String>>) -> Seq<Dimensions> {
    list.map_values(|m: TextMap<String>| text_entries(m@))
}

/// All instances of `matrix` whose dimensions agree with `fixed`.
#[verifier::loop_isolation(false)]
pub fn matrix_instances(matrix: &TextMap<Vec<String>>, fixed: &TextMap<String>) -> (r: Result<
    Vec<TextMap<String>>,
    String,
>)
    ensures
        match r {
            Ok(list) => instances_of(list_entries(matrix@), text_entries(fixed@)) == Ok::<
                Seq<Dimensions>,
                Seq<char>,
            >(instance_list(list@)),
            Err(message) => instances_of(list_entries(matrix@), text_entries(fixed@)) == Err::<
                Seq<Dimensions>,
                Seq<char>,
            >(message@),
        },
{
    let ghost m = list_entries(matrix@);
    let ghost f = text_entries(fixed@);
    let mut instances: Vec<TextMap<String>> = Vec::new();
    let first: TextMap<String> = TextMap::new();
    assert(text_entries(first@) =~= seq![]);
    instances.push(first);
    assert(instance_list(instances@) =~= seq![seq![]]);
    let total: usize = matrix.len();
    let mut i: usize = 0;
    assert(m.take(0) =~= seq![]);
    while i < total
        invariant
            i <= total == m.len(),
            sorted(matrix@),
            instances_of(m.take(i as int), f) == Ok::<Seq<Dimensions>, Seq<char>>(
                instance_list(instances@),
            ),
            forall|k: int, j: int|
                0 <= k < instances@.len() && 0 <= j < (#[trigger] instances@[k])@.len() ==> exists|
                    q: int,
                |
                    0 <= q < i && (#[trigger] m[q]).0 == (#[trigger] instances@[k]@[j]).0,
        decreases total - i,
    {
        let key = matrix.key_at(i);
        let values = matrix.value_at(i);
        let ghost next_matrix = m.take(i as int + 1);
        assert(next_matrix.drop_last() =~= m.take(i as int));
        assert(next_matrix.last() == (key@, texts(values@)));
        proof {
            lemma_text_entries_lookup(fixed@, key@);
        }
        let mut selected: Vec<String> = Vec::new();
        match fixed.get(key) {
            Some(value) => {
                if !holds(values, value.as_str()) {
                    proof {
                        lemma_error_stays(m, f, i as int + 1);
                    }
                    return Err(no_such_value(key, value.as_str()));
                }
                selected.push(value.clone());
                assert(texts(selected@) =~= seq![value@]);
            },
            None => {
                selected = copy_texts(values);
            },
        }
        let ghost chosen = texts(selected@);
        let ghost earlier = instance_list(instances@);
        let ghost held = instances@;
        let mut next: Vec<TextMap<String>> = Vec::new();
        let mut a: usize = 0;
        assert(instance_list(next@) =~= seq![]);
        assert(earlier.take(0) =~= seq![]);
        while a < instances.len()
            invariant
                a <= held.len(),
                instance_list(next@) == product(earlier.take(a as int), key@, chosen),
                forall|k: int, j: int|
                    0 <= k < next@.len() && 0 <= j < (#[trigger] next@[k])@.len() ==> exists|
                        q: int,
                    |
                        0 <= q < i + 1 && (#[trigger] m[q]).0 == (#[trigger] next@[k]@[j]).0,
            decreases held.len() - a,
        {
            let ghost base = instance_list(next@);
            let ghost instance = text_entries(held[a as int]@);
            let mut b: usize = 0;
            assert(base + with_values(instance, key@, chosen).take(0) =~= base);
            while b < selected.len()
                invariant
                    b <= chosen.len(),
                    instance_list(next@) == base + with_values(instance, key@, chosen).take(
                        b as int,
                    ),
                    forall|k: int, j: int|
                        0 <= k < next@.len() && 0 <= j < (#[trigger] next@[k])@.len() ==> exists|
                            q: int,
                        |
                            0 <= q < i + 1 && (#[trigger] m[q]).0 == (#[trigger] next@[k]@[j]).0,
                decreases chosen.len() - b,
            {
                let mut expanded = instances[a].copy();
                let ghost was = expanded@;
                let value = selected[b].clone();
                proof {
                    assert forall|j: int| 0 <= j < was.len() implies text_lt(
                        #[trigger] was[j].0,
                        key@,
                    ) by {
                        assert(was[j] == held[a as int]@[j]);
                        let q = choose|q: int|
                            0 <= q < i && (#[trigger] m[q]).0 == held[a as int]@[j].0;
                        assert(matrix@[q].0 == m[q].0);
                        assert(text_lt(matrix@[q].0, matrix@[i as int].0));
                    }
                    lemma_inserted_last(was, key@, value);
                }
                expanded.insert(key.to_owned(), value);
                assert(expanded@ == was.push((key@, value)));
                assert(text_entries(expanded@) =~= instance.push((key@, value@)));
                assert(chosen[b as int] == value@);
                let ghost before = instance_list(next@);
                let ghost list_before = next@;
                next.push(expanded);
                assert(instance_list(next@) =~= before.push(text_entries(expanded@)));
                assert forall|k: int, j: int|
                    0 <= k < next@.len() && 0 <= j < (#[trigger] next@[k])@.len() implies exists|
                    q: int,
                |
                    0 <= q < i + 1 && (#[trigger] m[q]).0 == (#[trigger] next@[k]@[j]).0 by {
                    if k < list_before.len() {
                        assert(next@[k] == list_before[k]);
                    } else if j < was.len() {
                        assert(next@[k]@[j] == held[a as int]@[j]);
                        let q = choose|q: int|
                            0 <= q < i && (#[trigger] m[q]).0 == held[a as int]@[j].0;
                        assert(m[q].0 == next@[k]@[j].0);
                    } else {
                        assert(m[i as int].0 == next@[k]@[j].0);
                    }
                }
                b += 1;
                assert(instance_list(next@) =~= base + with_values(instance, key@, chosen).take(
                    b as int,
                ));
            }
            assert(with_values(instance, key@, chosen).take(b as int) =~= with_values(
                instance,
                key@,
                chosen,
            ));
            assert(earlier.take(a as int + 1).drop_last() =~= earlier.take(a as int));
            assert(earlier.take(a as int + 1).last() == instance);
            a += 1;
        }
        assert(earlier.take(a as int) =~= earlier);
        instances = next;
        i += 1;
    }
    assert(m.take(i as int) =~= m);
    Ok(instances)
}

/// Once a dimension has no such value, no larger matrix has instances.
proof fn lemma_error_stays(
    matrix: Seq<(Seq<char>, Seq<Seq<char>>)>,
    fixed: Dimensions,
    k: int,
)
    requires
        0 <= k <= matrix.len(),
        instances_of(matrix.take(k), fixed) is Err,
    ensures
        instances_of(matrix, fixed) == instances_of(matrix.take(k), fixed),
    decreases matrix.len() - k,
{
    if k < matrix.len() {
        assert(matrix.take(k + 1).drop_last() =~= matrix.take(k));
        lemma_error_stays(matrix, fixed, k + 1);
    } else {
        assert(matrix.take(k) =~= matrix);
    }
}

/// `value` with every placeholder `${dimension}` replaced.
#[verifier::loop_isolation(false)]
pub fn interpolate_value(value: &str, dimensions: &TextMap<String>) -> (r: Result<String, String>)
    ensures
        match r {
            Ok(output) => interpolated(value@, text_entries(dimensions@)) == Ok::<
                Seq<char>,
                Seq<char>,
            >(output@),
            Err(message) => interpolated(value@, text_entries(dimensions@)) == Err::<
                Seq<char>,
                Seq<char>,
            >(message@),
        },
{
    let ghost d = text_entries(dimensions@);
    let chars = chars_of(value);
    let open = chars_of("${");
    let mut output = String::new();
    let mut at: usize = 0;
    proof {
        reveal_strlit("${");
        assert(value@.skip(0) =~= value@);
        match replaced(value@, value@, d) {
            Ok(t) => {
                assert(output@ + t =~= t);
            },
            Err(_) => {},
        }
    }
    loop
        invariant
            at <= chars@.len(),
            replaced(value@, value@, d) == (match replaced(value@, value@.skip(at as int), d) {
                Ok(t) => Ok(output@ + t),
                Err(e) => Err(e),
            }),
        decreases chars.len() - at,
    {
        let ghost rest = value@.skip(at as int);
        match find_from(&chars, &open, at) {
            None => {
                output.append(text_of(&chars, at, chars.len()).as_str());
                assert(value@.subrange(at as int, chars@.len() as int) =~= rest);
                return Ok(output);
            },
            Some(start) => {
                let inside: usize = start + 2;
                let end: usize = position_from(&chars, '}', inside);
                let ghost after = rest.skip(start - at + 2);
                assert(after =~= chars@.skip(inside as int));
                if end == chars.len() {
                    let mut message = "unterminated matrix placeholder in `".to_owned();
                    message.append(value);
                    message.append("`");
                    return Err(message);
                }
                let key = text_of(&chars, inside, end);
                assert(key@ =~= after.take(end - inside));
                proof {
                    lemma_text_entries_lookup(dimensions@, key@);
                }
                let ghost sofar = output@;
                output.append(text_of(&chars, at, start).as_str());
                assert(value@.subrange(at as int, start as int) =~= rest.take(start - at));
                match dimensions.get(key.as_str()) {
                    None => {
                        let mut message = "unknown matrix placeholder `${".to_owned();
                        message.append(key.as_str());
                        message.append("}` in `");
                        message.append(value);
                        message.append("`");
                        return Err(message);
                    },
                    Some(replacement) => {
                        output.append(replacement.as_str());
                        assert(after.skip(end - inside + 1) =~= value@.skip(end as int + 1));
                        proof {
                            match replaced(value@, value@.skip(end as int + 1), d) {
                                Ok(t) => {
                                    assert(output@ + t =~= sofar + (rest.take(start - at)
                                        + replacement@ + t));
                                },
                                Err(_) => {},
                            }
                        }
                        at = end + 1;
                    },
                }
            },
        }
    }
}

} // verus!
