//! Text as a sequence of characters.
//!
//! Everything the rest of the library does with names, paths, manifests and
//! messages is stated over `Seq<char>`, the view of `str` and `String`. This
//! module holds the vocabulary for that: splitting, joining, searching,
//! trimming, ordering and decimal numbers.

use vstd::prelude::*;
use vstd::string::StringExecFns;

verus! {

/// `String::push` appends one character.
pub assume_specification[ String::push ](text: &mut String, c: char)
    ensures
        final(text)@ == old(text)@.push(c),
;

/// The views of a list of strings.
pub open spec fn texts(list: Seq<String>) -> Seq<Seq<char>> {
    list.map_values(|t: String| t@)
}

/// The view of an optional string.
pub open spec fn optional_text(value: Option<String>) -> Option<Seq<char>> {
    match value {
        Some(t) => Some(t@),
        None => None,
    }
}

// ---------------------------------------------------------------------------
// Searching
// ---------------------------------------------------------------------------
/// The index of the first `c` in `s`, or the length of `s` when there is none.
pub open spec fn position(s: Seq<char>, c: char) -> int
    decreases s.len(),
{
    if s.len() == 0 {
        0
    } else if s[0] == c {
        0
    } else {
        1 + position(s.drop_first(), c)
    }
}

pub proof fn lemma_position(s: Seq<char>, c: char, k: int)
    requires
        0 <= k <= s.len(),
        forall|j: int| 0 <= j < k ==> s[j] != c,
        k < s.len() ==> s[k] == c,
    ensures
        position(s, c) == k,
    decreases k,
{
    if k > 0 {
        lemma_position(s.drop_first(), c, k - 1);
    }
}

pub proof fn lemma_position_bounds(s: Seq<char>, c: char)
    ensures
        0 <= position(s, c) <= s.len(),
        position(s, c) < s.len() ==> s[position(s, c)] == c,
        forall|j: int| 0 <= j < position(s, c) ==> s[j] != c,
        s.contains(c) <==> position(s, c) < s.len(),
    decreases s.len(),
{
    if s.len() > 0 && s[0] != c {
        lemma_position_bounds(s.drop_first(), c);
        assert forall|j: int| 0 <= j < position(s, c) implies s[j] != c by {
            if j > 0 {
                assert(s[j] == s.drop_first()[j - 1]);
            }
        }
        if s.contains(c) {
            let w = choose|w: int| 0 <= w < s.len() && s[w] == c;
            assert(s.drop_first()[w - 1] == c);
        }
        if position(s, c) < s.len() {
            assert(s[position(s, c)] == c);
        }
    }
}

/// The index at which `needle` first occurs in `s`.
pub open spec fn find(s: Seq<char>, needle: Seq<char>) -> Option<int>
    decreases s.len(),
{
    if needle.is_prefix_of(s) {
        Some(0)
    } else if s.len() == 0 {
        None
    } else {
        match find(s.drop_first(), needle) {
            Some(i) => Some(i + 1),
            None => None,
        }
    }
}

pub proof fn lemma_find_bounds(s: Seq<char>, needle: Seq<char>)
    ensures
        find(s, needle) matches Some(i) ==> 0 <= i && i + needle.len() <= s.len() && s.subrange(
            i,
            i + needle.len(),
        ) == needle,
    decreases s.len(),
{
    if needle.is_prefix_of(s) {
    } else if s.len() > 0 {
        lemma_find_bounds(s.drop_first(), needle);
        if let Some(i) = find(s.drop_first(), needle) {
            assert(s.subrange(i + 1, i + 1 + needle.len()) =~= s.drop_first().subrange(
                i,
                i + needle.len(),
            ));
        }
    }
}

/// Whether some character of `s` satisfies `pred`.
pub open spec fn any(s: Seq<char>, pred: spec_fn(char) -> bool) -> bool {
    exists|i: int| 0 <= i < s.len() && pred(#[trigger] s[i])
}

// ---------------------------------------------------------------------------
// Splitting and joining
// ---------------------------------------------------------------------------
/// The pieces of `s` between the separators `sep`; always at least one.
pub open spec fn split(s: Seq<char>, sep: char) -> Seq<Seq<char>>
    decreases s.len(),
{
    let p = position(s, sep);
    if 0 <= p < s.len() {
        seq![s.take(p)] + split(s.skip(p + 1), sep)
    } else {
        seq![s]
    }
}

/// The pieces of `s` that each end at a newline; the last may lack it.
pub open spec fn split_lines(s: Seq<char>) -> Seq<Seq<char>>
    decreases s.len(),
{
    let p = position(s, '\n');
    if s.len() == 0 {
        seq![]
    } else if 0 <= p < s.len() {
        seq![s.take(p + 1)] + split_lines(s.skip(p + 1))
    } else {
        seq![s]
    }
}

/// A line without the newline, or the carriage return and newline, that ends it.
pub open spec fn strip_line_end(line: Seq<char>) -> Seq<char> {
    if line.len() > 0 && line.last() == '\n' {
        let body = line.drop_last();
        if body.len() > 0 && body.last() == '\r' {
            body.drop_last()
        } else {
            body
        }
    } else {
        line
    }
}

/// The lines of `s` without their line endings.
pub open spec fn lines(s: Seq<char>) -> Seq<Seq<char>> {
    split_lines(s).map_values(|line: Seq<char>| strip_line_end(line))
}

/// All of `parts`, in order, with nothing between them.
pub open spec fn concat(parts: Seq<Seq<char>>) -> Seq<char>
    decreases parts.len(),
{
    if parts.len() == 0 {
        seq![]
    } else {
        concat(parts.drop_last()) + parts.last()
    }
}

/// All of `parts`, in order, with `sep` between each two.
pub open spec fn join(parts: Seq<Seq<char>>, sep: Seq<char>) -> Seq<char>
    decreases parts.len(),
{
    if parts.len() == 0 {
        seq![]
    } else if parts.len() == 1 {
        parts[0]
    } else {
        join(parts.drop_last(), sep) + sep + parts.last()
    }
}

pub proof fn lemma_split_nonempty(s: Seq<char>, sep: char)
    ensures
        split(s, sep).len() >= 1,
{
}

/// Joining the pieces of a split with the separator gives the text back.
pub proof fn law_split_join(s: Seq<char>, sep: char)
    ensures
        join(split(s, sep), seq![sep]) == s,
    decreases s.len(),
{
    lemma_position_bounds(s, sep);
    let p = position(s, sep);
    if p < s.len() {
        let head = s.take(p);
        let rest = s.skip(p + 1);
        law_split_join(rest, sep);
        lemma_join_front(head, split(rest, sep), seq![sep]);
        assert(head + seq![sep] + rest =~= s);
    }
}

/// Splitting what was joined gives the parts back, where none holds the separator.
pub proof fn law_join_split(parts: Seq<Seq<char>>, sep: char)
    requires
        parts.len() > 0,
        forall|i: int| 0 <= i < parts.len() ==> !(#[trigger] parts[i]).contains(sep),
    ensures
        split(join(parts, seq![sep]), sep) == parts,
    decreases parts.len(),
{
    let text = join(parts, seq![sep]);
    lemma_position_bounds(text, sep);
    if parts.len() == 1 {
        assert(parts[0] == text);
        assert(split(text, sep) =~= parts);
    } else {
        let head = parts[0];
        let rest = parts.drop_first();
        assert(parts =~= seq![head] + rest);
        lemma_join_front(head, rest, seq![sep]);
        let tail = join(rest, seq![sep]);
        assert(text == head + seq![sep] + tail);
        assert forall|i: int| 0 <= i < rest.len() implies !(#[trigger] rest[i]).contains(sep) by {
            assert(rest[i] == parts[i + 1]);
        }
        law_join_split(rest, sep);
        assert forall|j: int| 0 <= j < head.len() implies text[j] != sep by {
            assert(text[j] == head[j]);
            assert(head.contains(head[j]));
        }
        assert(text[head.len() as int] == sep);
        lemma_position(text, sep, head.len() as int);
        assert(text.take(head.len() as int) =~= head);
        assert(text.skip(head.len() as int + 1) =~= tail);
        assert(split(text, sep) =~= parts);
    }
}

/// Joining a list that starts with `head`.
pub proof fn lemma_join_front(head: Seq<char>, rest: Seq<Seq<char>>, sep: Seq<char>)
    requires
        rest.len() > 0,
    ensures
        join(seq![head] + rest, sep) == head + sep + join(rest, sep),
    decreases rest.len(),
{
    let all = seq![head] + rest;
    assert(all.drop_last() =~= seq![head] + rest.drop_last());
    if rest.len() == 1 {
        assert(all.drop_last() =~= seq![head]);
        assert(join(all.drop_last(), sep) == head);
    } else {
        lemma_join_front(head, rest.drop_last(), sep);
        assert(join(all, sep) =~= head + sep + join(rest, sep));
    }
}

pub proof fn lemma_concat_add(left: Seq<Seq<char>>, right: Seq<Seq<char>>)
    ensures
        concat(left + right) == concat(left) + concat(right),
    decreases right.len(),
{
    if right.len() == 0 {
        assert(left + right =~= left);
        assert(concat(left) + concat(right) =~= concat(left));
    } else {
        assert((left + right).drop_last() =~= left + right.drop_last());
        lemma_concat_add(left, right.drop_last());
        assert(concat(left + right) =~= concat(left) + concat(right));
    }
}

/// The lines of a text, put together, are the text.
pub proof fn law_split_lines_concat(s: Seq<char>)
    ensures
        concat(split_lines(s)) == s,
    decreases s.len(),
{
    lemma_position_bounds(s, '\n');
    let p = position(s, '\n');
    if s.len() == 0 {
        assert(s =~= seq![]);
    } else if p < s.len() {
        let head = s.take(p + 1);
        let rest = s.skip(p + 1);
        law_split_lines_concat(rest);
        lemma_concat_add(seq![head], split_lines(rest));
        lemma_concat_one(head);
        assert(head + rest =~= s);
    } else {
        lemma_concat_one(s);
    }
}

pub proof fn lemma_concat_one(s: Seq<char>)
    ensures
        concat(seq![s]) == s,
{
    assert(seq![s].drop_last() =~= seq![]);
    assert(concat(seq![s].drop_last()) =~= seq![]);
    assert(concat(seq![s]) =~= s);
}

// ---------------------------------------------------------------------------
// Character classes and trimming
// ---------------------------------------------------------------------------
/// Unicode white space.
pub open spec fn is_space(c: char) -> bool {
    let u = c as u32;
    ||| 9 <= u <= 13
    ||| u == 0x20
    ||| u == 0x85
    ||| u == 0xa0
    ||| u == 0x1680
    ||| 0x2000 <= u <= 0x200a
    ||| u == 0x2028
    ||| u == 0x2029
    ||| u == 0x202f
    ||| u == 0x205f
    ||| u == 0x3000
}

/// Unicode control characters.
pub open spec fn is_control(c: char) -> bool {
    let u = c as u32;
    u <= 0x1f || 0x7f <= u <= 0x9f
}

pub open spec fn is_digit(c: char) -> bool {
    '0' as u32 <= c as u32 <= '9' as u32
}

pub open spec fn is_alphanumeric(c: char) -> bool {
    is_digit(c) || 'a' as u32 <= c as u32 <= 'z' as u32 || 'A' as u32 <= c as u32 <= 'Z' as u32
}

pub open spec fn trim_start(s: Seq<char>) -> Seq<char>
    decreases s.len(),
{
    if s.len() > 0 && is_space(s[0]) {
        trim_start(s.drop_first())
    } else {
        s
    }
}

pub open spec fn trim_end(s: Seq<char>) -> Seq<char>
    decreases s.len(),
{
    if s.len() > 0 && is_space(s.last()) {
        trim_end(s.drop_last())
    } else {
        s
    }
}

/// `s` without the white space at both ends.
pub open spec fn trim(s: Seq<char>) -> Seq<char> {
    trim_end(trim_start(s))
}

// ---------------------------------------------------------------------------
// Order
// ---------------------------------------------------------------------------
/// Lexicographic order by code point, the order of strings.
pub open spec fn text_lt(a: Seq<char>, b: Seq<char>) -> bool
    decreases a.len(),
{
    if b.len() == 0 {
        false
    } else if a.len() == 0 {
        true
    } else if a[0] != b[0] {
        (a[0] as u32) < (b[0] as u32)
    } else {
        text_lt(a.drop_first(), b.drop_first())
    }
}

pub open spec fn text_le(a: Seq<char>, b: Seq<char>) -> bool {
    a == b || text_lt(a, b)
}

pub proof fn lemma_text_lt_irreflexive(a: Seq<char>)
    ensures
        !text_lt(a, a),
    decreases a.len(),
{
    if a.len() > 0 {
        lemma_text_lt_irreflexive(a.drop_first());
    }
}

pub proof fn lemma_text_lt_transitive(a: Seq<char>, b: Seq<char>, c: Seq<char>)
    requires
        text_lt(a, b),
        text_lt(b, c),
    ensures
        text_lt(a, c),
    decreases a.len(),
{
    if a.len() > 0 && b.len() > 0 && c.len() > 0 && a[0] == b[0] && b[0] == c[0] {
        lemma_text_lt_transitive(a.drop_first(), b.drop_first(), c.drop_first());
    }
}

pub proof fn lemma_text_lt_total(a: Seq<char>, b: Seq<char>)
    ensures
        a == b || text_lt(a, b) || text_lt(b, a),
    decreases a.len(),
{
    if a.len() > 0 && b.len() > 0 && a[0] == b[0] {
        lemma_text_lt_total(a.drop_first(), b.drop_first());
        if a.drop_first() == b.drop_first() {
            assert(a =~= seq![a[0]] + a.drop_first());
            assert(b =~= seq![b[0]] + b.drop_first());
        }
    } else if a.len() == 0 && b.len() == 0 {
        assert(a =~= b);
    } else if a.len() > 0 && b.len() > 0 {
        vstd::utf8::char_u32_cast(a[0], a[0] as u32);
        vstd::utf8::char_u32_cast(b[0], b[0] as u32);
    }
}

// ---------------------------------------------------------------------------
// Decimal numbers
// ---------------------------------------------------------------------------
pub open spec fn digit(d: nat) -> char
    recommends
        d < 10,
{
    (48 + d) as char
}

/// The decimal numeral of `n`, without leading zeros.
pub open spec fn decimal(n: nat) -> Seq<char>
    decreases n,
{
    if n < 10 {
        seq![digit(n)]
    } else {
        decimal(n / 10).push(digit(n % 10))
    }
}

/// The number that a string of digits writes.
pub open spec fn decimal_value(s: Seq<char>) -> nat
    decreases s.len(),
{
    if s.len() == 0 {
        0
    } else {
        10 * decimal_value(s.drop_last()) + ((s.last() as u32 - 48) as nat)
    }
}

pub open spec fn all_digits(s: Seq<char>) -> bool {
    forall|i: int| 0 <= i < s.len() ==> is_digit(#[trigger] s[i])
}

/// Reading a decimal numeral gives back the number that was written.
pub proof fn law_decimal_round_trip(n: nat)
    ensures
        decimal_value(decimal(n)) == n,
        all_digits(decimal(n)),
        decimal(n).len() >= 1,
        decimal(n).len() > 1 ==> decimal(n)[0] != '0',
    decreases n,
{
    let s = decimal(n);
    if n < 10 {
        assert(s.drop_last() =~= seq![]);
        assert(s.last() as u32 == 48 + n);
        assert(decimal_value(s.drop_last()) == 0);
    } else {
        law_decimal_round_trip(n / 10);
        assert(s.drop_last() =~= decimal(n / 10));
        assert(s.last() as u32 == 48 + n % 10);
        if n / 10 < 10 {
            assert(decimal(n / 10)[0] as u32 == 48 + n / 10);
        } else {
            law_decimal_round_trip((n / 10) / 10);
        }
        assert(s[0] == decimal(n / 10)[0]);
    }
}

pub proof fn lemma_decimal_value_bound(s: Seq<char>, k: int)
    requires
        0 <= k <= s.len(),
        all_digits(s),
    ensures
        decimal_value(s.take(k)) <= decimal_value(s),
    decreases s.len(),
{
    if k == s.len() {
        assert(s.take(k) =~= s);
    } else {
        let t = s.drop_last();
        assert(is_digit(s.last()));
        assert forall|i: int| 0 <= i < t.len() implies is_digit(#[trigger] t[i]) by {
            assert(t[i] == s[i]);
        }
        lemma_decimal_value_bound(t, k);
        assert(t.take(k) =~= s.take(k));
    }
}

// ---------------------------------------------------------------------------
// Executable counterparts
// ---------------------------------------------------------------------------
/// The characters of a text.
pub fn chars_of(s: &str) -> (r: Vec<char>)
    ensures
        r@ == s@,
{
    let mut out: Vec<char> = Vec::new();
    for c in it: s.chars()
        invariant
            out@ == it.seq().take(it.index()),
            it.seq() == s@,
    {
        out.push(c);
        assert(it.seq().take(it.index() + 1) =~= it.seq().take(it.index()).push(c));
    }
    assert(out@ =~= s@);
    out
}

/// The text of `chars[from..to]`.
pub fn text_of(chars: &Vec<char>, from: usize, to: usize) -> (r: String)
    requires
        from <= to <= chars@.len(),
    ensures
        r@ == chars@.subrange(from as int, to as int),
{
    let mut out = String::new();
    let mut i: usize = from;
    while i < to
        invariant
            from <= i <= to <= chars@.len(),
            out@ == chars@.subrange(from as int, i as int),
        decreases to - i,
    {
        out.push(chars[i]);
        i += 1;
        assert(out@ =~= chars@.subrange(from as int, i as int));
    }
    out
}

/// Whether two texts are the same.
pub fn same(a: &str, b: &str) -> (r: bool)
    ensures
        r == (a@ == b@),
{
    let x = chars_of(a);
    let y = chars_of(b);
    if x.len() != y.len() {
        return false;
    }
    let mut i: usize = 0;
    while i < x.len()
        invariant
            i <= x@.len(),
            x@.len() == y@.len(),
            x@ == a@,
            y@ == b@,
            forall|j: int| 0 <= j < i ==> x@[j] == y@[j],
        decreases x.len() - i,
    {
        if x[i] != y[i] {
            assert(a@[i as int] != b@[i as int]);
            return false;
        }
        i += 1;
    }
    assert(a@ =~= b@);
    true
}

/// Whether `list` holds `text`.
pub fn holds(list: &Vec<String>, text: &str) -> (r: bool)
    ensures
        r == texts(list@).contains(text@),
{
    let mut i: usize = 0;
    while i < list.len()
        invariant
            i <= list@.len(),
            forall|j: int| 0 <= j < i ==> texts(list@)[j] != text@,
        decreases list.len() - i,
    {
        if same(list[i].as_str(), text) {
            assert(texts(list@)[i as int] == text@);
            return true;
        }
        i += 1;
    }
    false
}

/// A copy of a list of strings.
pub fn copy_texts(list: &Vec<String>) -> (r: Vec<String>)
    ensures
        r@ == list@,
{
    let mut out: Vec<String> = Vec::new();
    let mut i: usize = 0;
    while i < list.len()
        invariant
            i <= list@.len(),
            out@ == list@.take(i as int),
        decreases list.len() - i,
    {
        out.push(list[i].clone());
        i += 1;
        assert(out@ =~= list@.take(i as int));
    }
    assert(out@ =~= list@);
    out
}

/// A copy of an optional string.
pub fn copy_optional(value: &Option<String>) -> (r: Option<String>)
    ensures
        r == *value,
{
    match value {
        Some(t) => Some(t.clone()),
        None => None,
    }
}

/// Whether `a` comes before `b` in the order of strings.
pub fn precedes(a: &str, b: &str) -> (r: bool)
    ensures
        r == text_lt(a@, b@),
{
    let x = chars_of(a);
    let y = chars_of(b);
    let mut i: usize = 0;
    assert(a@.skip(0) =~= a@);
    assert(b@.skip(0) =~= b@);
    while i < x.len() && i < y.len()
        invariant
            i <= x@.len(),
            i <= y@.len(),
            x@ == a@,
            y@ == b@,
            text_lt(a@, b@) == text_lt(a@.skip(i as int), b@.skip(i as int)),
        decreases x.len() - i,
    {
        let ghost sa = a@.skip(i as int);
        let ghost sb = b@.skip(i as int);
        assert(sa[0] == x[i as int] && sb[0] == y[i as int]);
        if x[i] != y[i] {
            return (x[i] as u32) < (y[i] as u32);
        }
        assert(sa.drop_first() =~= a@.skip(i as int + 1));
        assert(sb.drop_first() =~= b@.skip(i as int + 1));
        i += 1;
    }
    i < y.len()
}

/// Whether `s` holds the character `c`.
pub fn has_char(s: &str, c: char) -> (r: bool)
    ensures
        r == s@.contains(c),
{
    let chars = chars_of(s);
    let mut i: usize = 0;
    while i < chars.len()
        invariant
            i <= chars@.len(),
            chars@ == s@,
            forall|j: int| 0 <= j < i ==> s@[j] != c,
        decreases chars.len() - i,
    {
        if chars[i] == c {
            assert(s@[i as int] == c);
            return true;
        }
        i += 1;
    }
    false
}

/// Whether `c` is a control character.
pub fn control(c: char) -> (r: bool)
    ensures
        r == is_control(c),
{
    let u: u32 = c as u32;
    u <= 0x1f || (0x7f <= u && u <= 0x9f)
}

/// Whether `c` is white space.
pub fn space(c: char) -> (r: bool)
    ensures
        r == is_space(c),
{
    let u: u32 = c as u32;
    (9 <= u && u <= 13) || u == 0x20 || u == 0x85 || u == 0xa0 || u == 0x1680 || (0x2000 <= u && u
        <= 0x200a) || u == 0x2028 || u == 0x2029 || u == 0x202f || u == 0x205f || u == 0x3000
}

/// Whether `c` is an ASCII digit.
pub fn digit_char(c: char) -> (r: bool)
    ensures
        r == is_digit(c),
{
    let u: u32 = c as u32;
    48 <= u && u <= 57
}

/// Whether `c` is an ASCII letter or digit.
pub fn alphanumeric(c: char) -> (r: bool)
    ensures
        r == is_alphanumeric(c),
{
    let u: u32 = c as u32;
    (48 <= u && u <= 57) || (97 <= u && u <= 122) || (65 <= u && u <= 90)
}

/// Whether `s` holds a control character.
pub fn has_control(s: &str) -> (r: bool)
    ensures
        r == any(s@, |c: char| is_control(c)),
{
    let chars = chars_of(s);
    let mut i: usize = 0;
    while i < chars.len()
        invariant
            i <= chars@.len(),
            chars@ == s@,
            forall|j: int| 0 <= j < i ==> !is_control(#[trigger] s@[j]),
        decreases chars.len() - i,
    {
        if control(chars[i]) {
            assert(is_control(s@[i as int]));
            return true;
        }
        i += 1;
    }
    false
}

/// The index of the first `c` at or after `from`, or the length when there is none.
pub fn position_from(chars: &Vec<char>, c: char, from: usize) -> (r: usize)
    requires
        from <= chars@.len(),
    ensures
        r == from + position(chars@.skip(from as int), c),
        from <= r <= chars@.len(),
        r < chars@.len() ==> chars@[r as int] == c,
        forall|j: int| from <= j < r ==> chars@[j] != c,
{
    let mut i: usize = from;
    while i < chars.len()
        invariant
            from <= i <= chars@.len(),
            forall|j: int| from <= j < i ==> chars@[j] != c,
        decreases chars.len() - i,
    {
        if chars[i] == c {
            proof {
                lemma_position(chars@.skip(from as int), c, i - from);
            }
            return i;
        }
        i += 1;
    }
    proof {
        lemma_position(chars@.skip(from as int), c, i - from);
    }
    i
}

/// Whether `chars[at..]` starts with `needle`.
pub fn matches_at(chars: &Vec<char>, at: usize, needle: &Vec<char>) -> (r: bool)
    requires
        at <= chars@.len(),
    ensures
        r == needle@.is_prefix_of(chars@.skip(at as int)),
{
    if needle.len() > chars.len() - at {
        return false;
    }
    let mut i: usize = 0;
    while i < needle.len()
        invariant
            i <= needle@.len(),
            at + needle.len() <= chars.len(),
            forall|j: int| 0 <= j < i ==> needle@[j] == chars@[at + j],
        decreases needle.len() - i,
    {
        if needle[i] != chars[at + i] {
            assert(chars@.skip(at as int).subrange(0, needle@.len() as int)[i as int]
                != needle@[i as int]);
            return false;
        }
        i += 1;
    }
    assert(chars@.skip(at as int).subrange(0, needle@.len() as int) =~= needle@);
    true
}

/// The first index at or after `from` at which `needle` occurs.
pub fn find_from(chars: &Vec<char>, needle: &Vec<char>, from: usize) -> (r: Option<usize>)
    requires
        from <= chars@.len(),
    ensures
        match r {
            Some(i) => find(chars@.skip(from as int), needle@) == Some(i - from) && from <= i && i
                + needle@.len() <= chars@.len(),
            None => find(chars@.skip(from as int), needle@) is None,
        },
{
    let mut i: usize = from;
    loop
        invariant
            from <= i <= chars@.len(),
            find(chars@.skip(from as int), needle@) == (match find(
                chars@.skip(i as int),
                needle@,
            ) {
                Some(k) => Some(k + (i - from)),
                None => None,
            }),
        decreases chars.len() - i,
    {
        if matches_at(chars, i, needle) {
            return Some(i);
        }
        if i == chars.len() {
            return None;
        }
        assert(chars@.skip(i as int).drop_first() =~= chars@.skip(i as int + 1));
        i += 1;
    }
}

/// Whether `s` holds `needle`.
pub fn has_text(s: &str, needle: &str) -> (r: bool)
    ensures
        r == find(s@, needle@) is Some,
{
    let chars = chars_of(s);
    assert(chars@.skip(0) =~= s@);
    find_from(&chars, &chars_of(needle), 0).is_some()
}

/// Whether `s` starts with `prefix`.
pub fn starts_with(s: &str, prefix: &str) -> (r: bool)
    ensures
        r == prefix@.is_prefix_of(s@),
{
    let chars = chars_of(s);
    assert(chars@.skip(0) =~= s@);
    matches_at(&chars, 0, &chars_of(prefix))
}

/// What follows `prefix` in `s`, where `s` starts with it.
pub fn strip_prefix(s: &str, prefix: &str) -> (r: Option<String>)
    ensures
        match r {
            Some(rest) => prefix@.is_prefix_of(s@) && rest@ == s@.skip(prefix@.len() as int),
            None => !prefix@.is_prefix_of(s@),
        },
{
    let chars = chars_of(s);
    let lead = chars_of(prefix);
    assert(chars@.skip(0) =~= s@);
    if matches_at(&chars, 0, &lead) {
        Some(text_of(&chars, lead.len(), chars.len()))
    } else {
        None
    }
}

/// The pieces of `s` between the separators `sep`.
pub fn split_text(s: &str, sep: char) -> (r: Vec<String>)
    ensures
        texts(r@) == split(s@, sep),
        r@.len() >= 1,
{
    let chars = chars_of(s);
    let mut out: Vec<String> = Vec::new();
    let mut start: usize = 0;
    assert(s@.skip(0) =~= s@);
    assert(texts(out@) + split(s@, sep) =~= split(s@, sep));
    loop
        invariant
            chars@ == s@,
            start <= chars@.len(),
            texts(out@) + split(s@.skip(start as int), sep) == split(s@, sep),
        decreases chars.len() - start,
    {
        let end: usize = position_from(&chars, sep, start);
        let ghost rest = s@.skip(start as int);
        let piece = text_of(&chars, start, end);
        let ghost before = texts(out@);
        out.push(piece);
        assert(texts(out@) =~= before.push(piece@));
        assert(piece@ =~= rest.take(end - start));
        if end == chars.len() {
            assert(piece@ =~= rest);
            assert(texts(out@) =~= before + seq![rest]);
            return out;
        }
        assert(rest.skip(end - start + 1) =~= s@.skip(end as int + 1));
        assert(before + split(rest, sep) =~= texts(out@) + split(s@.skip(end as int + 1), sep));
        start = end + 1;
    }
}

/// The pieces of `s` that each end at a newline.
pub fn split_lines_text(s: &str) -> (r: Vec<String>)
    ensures
        texts(r@) == split_lines(s@),
{
    let chars = chars_of(s);
    let mut out: Vec<String> = Vec::new();
    let mut start: usize = 0;
    assert(s@.skip(0) =~= s@);
    assert(texts(out@) + split_lines(s@) =~= split_lines(s@));
    while start < chars.len()
        invariant
            chars@ == s@,
            start <= chars@.len(),
            texts(out@) + split_lines(s@.skip(start as int)) == split_lines(s@),
        decreases chars.len() - start,
    {
        let newline: usize = position_from(&chars, '\n', start);
        let ghost rest = s@.skip(start as int);
        let end: usize = if newline < chars.len() {
            newline + 1
        } else {
            newline
        };
        let piece = text_of(&chars, start, end);
        let ghost before = texts(out@);
        out.push(piece);
        assert(texts(out@) =~= before.push(piece@));
        assert(piece@ =~= rest.take(end - start));
        if newline < chars.len() {
            assert(rest.skip(end - start) =~= s@.skip(end as int));
            assert(before + split_lines(rest) =~= texts(out@) + split_lines(s@.skip(end as int)));
        } else {
            assert(piece@ =~= rest);
            assert(s@.skip(end as int) =~= seq![]);
            assert(before + split_lines(rest) =~= texts(out@) + split_lines(s@.skip(end as int)));
        }
        start = end;
    }
    assert(s@.skip(start as int) =~= seq![]);
    assert(texts(out@) + split_lines(s@.skip(start as int)) =~= texts(out@));
    out
}

/// A line without its line ending.
pub fn strip_line_end_text(line: &str) -> (r: String)
    ensures
        r@ == strip_line_end(line@),
{
    let chars = chars_of(line);
    let n: usize = chars.len();
    if n > 0 && chars[n - 1] == '\n' {
        if n > 1 && chars[n - 2] == '\r' {
            assert(line@.drop_last().drop_last() =~= line@.subrange(0, n - 2));
            text_of(&chars, 0, n - 2)
        } else {
            assert(line@.drop_last() =~= line@.subrange(0, n - 1));
            text_of(&chars, 0, n - 1)
        }
    } else {
        assert(line@.subrange(0, n as int) =~= line@);
        text_of(&chars, 0, n)
    }
}

/// The lines of `s` without their line endings.
pub fn lines_text(s: &str) -> (r: Vec<String>)
    ensures
        texts(r@) == lines(s@),
{
    let pieces = split_lines_text(s);
    let mut out: Vec<String> = Vec::new();
    let mut i: usize = 0;
    while i < pieces.len()
        invariant
            i <= pieces@.len(),
            texts(pieces@) == split_lines(s@),
            texts(out@) == lines(s@).take(i as int),
        decreases pieces.len() - i,
    {
        let line = strip_line_end_text(pieces[i].as_str());
        let ghost before = texts(out@);
        assert(split_lines(s@)[i as int] == pieces[i as int]@);
        out.push(line);
        assert(texts(out@) =~= before.push(line@));
        i += 1;
        assert(texts(out@) =~= lines(s@).take(i as int));
    }
    assert(split_lines(s@).len() == pieces@.len());
    assert(texts(out@) =~= lines(s@));
    out
}

/// All of `parts` with `sep` between each two.
pub fn join_texts(parts: &Vec<String>, sep: &str) -> (r: String)
    ensures
        r@ == join(texts(parts@), sep@),
{
    let mut out = String::new();
    let mut i: usize = 0;
    let ghost all = texts(parts@);
    while i < parts.len()
        invariant
            i <= parts@.len(),
            all == texts(parts@),
            out@ == join(all.take(i as int), sep@),
        decreases parts.len() - i,
    {
        let ghost head = all.take(i as int);
        let ghost next = all.take(i as int + 1);
        assert(next.drop_last() =~= head);
        assert(next.last() == parts[i as int]@);
        if i > 0 {
            out.append(sep);
        } else {
            assert(out@ =~= seq![]);
            assert(next =~= seq![parts[0]@]);
        }
        out.append(parts[i].as_str());
        assert(out@ =~= join(next, sep@));
        i += 1;
    }
    assert(all.take(i as int) =~= all);
    out
}

/// `s` without the white space at both ends.
pub fn trim_text(s: &str) -> (r: String)
    ensures
        r@ == trim(s@),
{
    let chars = chars_of(s);
    let mut from: usize = 0;
    assert(s@.skip(0) =~= s@);
    while from < chars.len() && space(chars[from])
        invariant
            chars@ == s@,
            from <= chars@.len(),
            trim_start(s@) == trim_start(s@.skip(from as int)),
        decreases chars.len() - from,
    {
        assert(s@.skip(from as int).drop_first() =~= s@.skip(from as int + 1));
        from += 1;
    }
    let ghost rest = s@.skip(from as int);
    assert(trim_start(s@) == rest);
    let mut to: usize = chars.len();
    assert(s@.subrange(from as int, to as int) =~= rest);
    while to > from && space(chars[to - 1])
        invariant
            chars@ == s@,
            from <= to <= chars@.len(),
            trim_end(rest) == trim_end(s@.subrange(from as int, to as int)),
        decreases to,
    {
        let ghost now = s@.subrange(from as int, to as int);
        assert(now.last() == chars[to - 1]);
        assert(now.drop_last() =~= s@.subrange(from as int, to - 1));
        to -= 1;
    }
    let ghost now = s@.subrange(from as int, to as int);
    assert(to > from ==> now.last() == chars[to - 1]);
    text_of(&chars, from, to)
}

/// `s` without the white space at its end.
pub fn trim_end_text(s: &str) -> (r: String)
    ensures
        r@ == trim_end(s@),
{
    let chars = chars_of(s);
    let mut to: usize = chars.len();
    assert(s@.subrange(0, to as int) =~= s@);
    while to > 0 && space(chars[to - 1])
        invariant
            chars@ == s@,
            to <= chars@.len(),
            trim_end(s@) == trim_end(s@.subrange(0, to as int)),
        decreases to,
    {
        let ghost now = s@.subrange(0, to as int);
        assert(now.last() == chars[to - 1]);
        assert(now.drop_last() =~= s@.subrange(0, to - 1));
        to -= 1;
    }
    let ghost now = s@.subrange(0, to as int);
    assert(to > 0 ==> now.last() == chars[to - 1]);
    text_of(&chars, 0, to)
}

/// The decimal numeral of `n`.
pub fn number(n: u128) -> (r: String)
    ensures
        r@ == decimal(n as nat),
    decreases n,
{
    let last: u8 = (48 + n % 10) as u8;
    if n < 10 {
        let mut out = String::new();
        out.push(last as char);
        assert(out@ =~= seq![digit(n as nat)]);
        out
    } else {
        let mut out = number(n / 10);
        out.push(last as char);
        out
    }
}

/// Whether every character of `s` is an ASCII digit.
pub fn only_digits(s: &str) -> (r: bool)
    ensures
        r == all_digits(s@),
{
    let chars = chars_of(s);
    let mut i: usize = 0;
    while i < chars.len()
        invariant
            i <= chars@.len(),
            chars@ == s@,
            forall|j: int| 0 <= j < i ==> is_digit(#[trigger] s@[j]),
        decreases chars.len() - i,
    {
        if !digit_char(chars[i]) {
            assert(!is_digit(s@[i as int]));
            return false;
        }
        i += 1;
    }
    true
}

/// The number that the digits of `s` write, where it fits.
pub fn parse_number(s: &str) -> (r: Option<u64>)
    requires
        all_digits(s@),
    ensures
        match r {
            Some(n) => n == decimal_value(s@),
            None => decimal_value(s@) > u64::MAX,
        },
{
    let chars = chars_of(s);
    let mut value: u64 = 0;
    let mut i: usize = 0;
    while i < chars.len()
        invariant
            i <= chars@.len(),
            chars@ == s@,
            all_digits(s@),
            value == decimal_value(s@.take(i as int)),
        decreases chars.len() - i,
    {
        assert(is_digit(s@[i as int]));
        let d: u64 = (chars[i] as u32 - 48) as u64;
        assert(s@.take(i as int + 1).drop_last() =~= s@.take(i as int));
        assert(s@.take(i as int + 1).last() == chars[i as int]);
        assert(decimal_value(s@.take(i as int + 1)) == 10 * value + d);
        proof {
            lemma_decimal_value_bound(s@, i as int + 1);
        }
        if value > (u64::MAX - d) / 10 {
            return None;
        }
        value = 10 * value + d;
        i += 1;
    }
    assert(s@.take(i as int) =~= s@);
    Some(value)
}


/// What stands before and behind the first `needle` in `s`.
pub open spec fn split_once(s: Seq<char>, needle: Seq<char>) -> Option<(Seq<char>, Seq<char>)> {
    match find(s, needle) {
        Some(i) => Some((s.take(i), s.skip(i + needle.len()))),
        None => None,
    }
}

/// What stands before and behind the first `needle` in `s`.
pub fn split_once_text(s: &str, needle: &str) -> (r: Option<(String, String)>)
    ensures
        split_once(s@, needle@) == (match r {
            Some((before, after)) => Some((before@, after@)),
            None => None,
        }),
{
    let chars = chars_of(s);
    let sought = chars_of(needle);
    assert(chars@.skip(0) =~= s@);
    let count: usize = chars.len();
    match find_from(&chars, &sought, 0) {
        Some(i) => {
            assert(i + sought@.len() <= count);
            let before = text_of(&chars, 0, i);
            let after = text_of(&chars, i + sought.len(), count);
            assert(before@ =~= s@.take(i as int));
            assert(after@ =~= s@.skip(i + needle@.len()));
            Some((before, after))
        },
        None => None,
    }
}

/// What stands behind the last `c` in `s`; all of `s` where there is none.
pub open spec fn after_last(s: Seq<char>, c: char) -> Seq<char>
    decreases s.len(),
{
    if s.len() == 0 || s.last() == c {
        Seq::empty()
    } else {
        after_last(s.drop_last(), c).push(s.last())
    }
}

/// What stands behind the last `c` in `s`; all of `s` where there is none.
pub fn after_last_text(s: &str, c: char) -> (r: String)
    ensures
        r@ == after_last(s@, c),
{
    let chars = chars_of(s);
    let ghost all = s@;
    let mut from: usize = chars.len();
    assert(all.take(from as int) =~= all);
    assert(all.skip(from as int) =~= Seq::empty());
    assert(after_last(all.take(from as int), c) + all.skip(from as int) =~= after_last(all, c));
    while from > 0 && chars[from - 1] != c
        invariant
            from <= chars@.len(),
            chars@ == all,
            after_last(all.take(from as int), c) + all.skip(from as int) == after_last(all, c),
        decreases from,
    {
        let ghost now = all.take(from as int);
        assert(now.drop_last() =~= all.take(from - 1));
        assert(now.last() == all[from - 1]);
        assert(after_last(now.drop_last(), c).push(now.last()) + all.skip(from as int)
            =~= after_last(now.drop_last(), c) + all.skip(from - 1));
        from -= 1;
    }
    let ghost now = all.take(from as int);
    assert(from > 0 ==> now.last() == all[from - 1]);
    assert(after_last(now, c) =~= Seq::empty());
    let rest = text_of(&chars, from, chars.len());
    assert(rest@ =~= all.skip(from as int));
    assert(after_last(now, c) + all.skip(from as int) =~= all.skip(from as int));
    rest
}

/// `s` with every `needle`, sought from the left, replaced.
pub open spec fn replaced(s: Seq<char>, needle: Seq<char>, with: Seq<char>) -> Seq<char>
    decreases s.len(),
{
    match find(s, needle) {
        Some(i) => if needle.len() > 0 && 0 <= i && i + needle.len() <= s.len() {
            s.take(i) + with + replaced(s.skip(i + needle.len()), needle, with)
        } else {
            s
        },
        None => s,
    }
}

/// `s` with every `needle`, sought from the left, replaced.
pub fn replace_text(s: &str, needle: &str, with: &str) -> (r: String)
    requires
        needle@.len() > 0,
    ensures
        r@ == replaced(s@, needle@, with@),
    decreases s@.len(),
{
    let chars = chars_of(s);
    let sought = chars_of(needle);
    assert(chars@.skip(0) =~= s@);
    let count: usize = chars.len();
    match find_from(&chars, &sought, 0) {
        Some(i) => {
            assert(i + sought@.len() <= count);
            let mut out = text_of(&chars, 0, i);
            assert(out@ =~= s@.take(i as int));
            out.append(with);
            let rest = text_of(&chars, i + sought.len(), count);
            assert(rest@ =~= s@.skip(i + needle@.len()));
            out.append(replace_text(rest.as_str(), needle, with).as_str());
            out
        },
        None => s.to_owned(),
    }
}

/// The number that a text writes: digits behind an optional plus sign, small
/// enough for 64 bits.
pub open spec fn unsigned_value(s: Seq<char>) -> Option<u64> {
    let digits = if s.len() > 1 && s[0] == '+' {
        s.skip(1)
    } else {
        s
    };
    if digits.len() > 0 && all_digits(digits) && decimal_value(digits) <= u64::MAX {
        Some(decimal_value(digits) as u64)
    } else {
        None
    }
}

/// The number that a text writes.
pub fn parse_unsigned(s: &str) -> (r: Option<u64>)
    ensures
        r == unsigned_value(s@),
{
    let chars = chars_of(s);
    let from: usize = if chars.len() > 1 && chars[0] == '+' {
        1
    } else {
        0
    };
    let digits = text_of(&chars, from, chars.len());
    assert(from == 1 ==> digits@ =~= s@.skip(1));
    assert(from == 0 ==> digits@ =~= s@);
    if from < chars.len() && only_digits(digits.as_str()) {
        parse_number(digits.as_str())
    } else {
        None
    }
}

/// Writing the number of a numeral without leading zeros gives back the
/// numeral.
pub proof fn law_numeral_round_trip(s: Seq<char>)
    requires
        s.len() > 0,
        all_digits(s),
        s.len() > 1 ==> s[0] != '0',
    ensures
        decimal(decimal_value(s)) == s,
        s.len() > 1 ==> decimal_value(s) >= 10,
    decreases s.len(),
{
    let front = s.drop_last();
    assert(is_digit(s.last()));
    let d = (s.last() as u32 - 48) as nat;
    assert(digit(d) == s.last()) by {
        vstd::utf8::char_u32_cast(s.last(), s.last() as u32);
    }
    if front.len() == 0 {
        assert(front =~= Seq::empty());
        assert(decimal_value(front) == 0);
        assert(decimal(decimal_value(s)) =~= s);
    } else {
        assert forall|i: int| 0 <= i < front.len() implies is_digit(#[trigger] front[i]) by {
            assert(front[i] == s[i]);
        }
        assert(front[0] == s[0]);
        law_numeral_round_trip(front);
        let v = decimal_value(front);
        assert(decimal_value(s) == 10 * v + d);
        if front.len() == 1 {
            assert(front.drop_last() =~= Seq::empty());
            assert(decimal_value(front.drop_last()) == 0);
            assert(v == (front[0] as u32 - 48) as nat);
            assert(is_digit(front[0]));
            assert(v >= 1);
        }
        assert((10 * v + d) / 10 == v);
        assert((10 * v + d) % 10 == d);
        assert(decimal(decimal_value(s)) =~= s);
    }
}

/// A text is found where it occurs first.
pub proof fn lemma_find_first(s: Seq<char>, needle: Seq<char>, k: int)
    requires
        0 <= k,
        k + needle.len() <= s.len(),
        needle.is_prefix_of(s.skip(k)),
        forall|j: int| 0 <= j < k ==> !needle.is_prefix_of(#[trigger] s.skip(j)),
    ensures
        find(s, needle) == Some(k),
    decreases k,
{
    assert(s.skip(0) =~= s);
    if k > 0 {
        let rest = s.drop_first();
        assert(rest.skip(k - 1) =~= s.skip(k));
        assert forall|j: int| 0 <= j < k - 1 implies !needle.is_prefix_of(
            #[trigger] rest.skip(j),
        ) by {
            assert(rest.skip(j) =~= s.skip(j + 1));
        }
        lemma_find_first(rest, needle, k - 1);
    }
}

/// No piece of a split holds the separator.
pub proof fn lemma_split_pieces(s: Seq<char>, sep: char, i: int)
    requires
        0 <= i < split(s, sep).len(),
    ensures
        !split(s, sep)[i].contains(sep),
    decreases s.len(),
{
    lemma_position_bounds(s, sep);
    let p = position(s, sep);
    if p < s.len() {
        let head = s.take(p);
        if i == 0 {
            assert(!head.contains(sep)) by {
                if head.contains(sep) {
                    let j = choose|j: int| 0 <= j < head.len() && head[j] == sep;
                    assert(s[j] == sep);
                }
            }
        } else {
            lemma_split_pieces(s.skip(p + 1), sep, i - 1);
        }
    }
}

/// A character of joined texts comes from one of them, or from between them.
pub proof fn lemma_join_chars(parts: Seq<Seq<char>>, sep: char, c: char)
    requires
        c != sep,
        forall|i: int| 0 <= i < parts.len() ==> !(#[trigger] parts[i]).contains(c),
    ensures
        !join(parts, seq![sep]).contains(c),
    decreases parts.len(),
{
    let text = join(parts, seq![sep]);
    if parts.len() > 1 {
        let front = parts.drop_last();
        assert forall|i: int| 0 <= i < front.len() implies !(#[trigger] front[i]).contains(c) by {
            assert(front[i] == parts[i]);
        }
        lemma_join_chars(front, sep, c);
        if text.contains(c) {
            let k = choose|k: int| 0 <= k < text.len() && text[k] == c;
            let head = join(front, seq![sep]);
            if k < head.len() {
                assert(head[k] == c);
                assert(head.contains(c));
            } else if k == head.len() {
                assert(text[k] == sep);
            } else {
                let last = parts[parts.len() - 1];
                assert(last[k - head.len() - 1] == c);
                assert(last.contains(c));
            }
        }
    } else if parts.len() == 1 {
        assert(!parts[0].contains(c));
    }
}

/// A text with a first character that is no white space is not blank.
pub proof fn lemma_not_blank(s: Seq<char>)
    requires
        s.len() > 0,
        !is_space(s[0]),
    ensures
        trim(s).len() > 0,
{
    lemma_trim_end_stops(s, 0);
}

proof fn lemma_trim_end_stops(s: Seq<char>, i: int)
    requires
        0 <= i < s.len(),
        !is_space(s[i]),
    ensures
        trim_end(s).len() > i,
    decreases s.len(),
{
    if is_space(s.last()) {
        lemma_trim_end_stops(s.drop_last(), i);
    }
}

/// The lines of rows that each end in a newline are the rows.
pub proof fn law_rows_are_lines(rows: Seq<Seq<char>>)
    requires
        rows.len() > 0,
        forall|i: int|
            0 <= i < rows.len() ==> !(#[trigger] rows[i]).contains('\n') && !rows[i].contains(
                '\r',
            ),
    ensures
        lines(join(rows, seq!['\n']) + seq!['\n']) == rows,
    decreases rows.len(),
{
    let text = join(rows, seq!['\n']) + seq!['\n'];
    let row = rows[0];
    assert(!row.contains('\n') && !row.contains('\r'));
    let rest = rows.drop_first();
    assert(rows =~= seq![row] + rest);
    let tail = if rest.len() == 0 {
        Seq::empty()
    } else {
        join(rest, seq!['\n']) + seq!['\n']
    };
    if rest.len() > 0 {
        lemma_join_front(row, rest, seq!['\n']);
        assert forall|i: int| 0 <= i < rest.len() implies !(#[trigger] rest[i]).contains('\n')
            && !rest[i].contains('\r') by {
            assert(rest[i] == rows[i + 1]);
        }
        law_rows_are_lines(rest);
    } else {
        assert(split_lines(tail) =~= Seq::empty());
    }
    assert(text =~= row + seq!['\n'] + tail);
    let n = row.len() as int;
    assert forall|j: int| 0 <= j < n implies #[trigger] text[j] != '\n' by {
        assert(text[j] == row[j]);
        assert(row.contains(row[j]));
    }
    assert(text[n] == '\n');
    lemma_position(text, '\n', n);
    assert(text.take(n + 1) =~= row + seq!['\n']);
    assert(text.skip(n + 1) =~= tail);
    let ended = row + seq!['\n'];
    assert(ended.drop_last() =~= row);
    assert(strip_line_end(ended) == row) by {
        if row.len() > 0 {
            assert(row.contains(row.last()));
        }
    }
    assert(split_lines(text) =~= seq![ended] + split_lines(tail));
    assert(lines(text) =~= seq![row] + lines(tail));
    assert(lines(tail) =~= rest);
}

/// Whether `needle` stands in `s` from place `i` on.
pub open spec fn stands_at(s: Seq<char>, needle: Seq<char>, i: int) -> bool {
    0 <= i && i + needle.len() <= s.len() && s.subrange(i, i + needle.len()) == needle
}

/// A text is found at the first place where it stands, and is not found only
/// where it stands nowhere.
pub proof fn law_the_first_occurrence_is_found(s: Seq<char>, needle: Seq<char>)
    ensures
        match find(s, needle) {
            Some(i) => stands_at(s, needle, i) && forall|j: int|
                0 <= j < i ==> !#[trigger] stands_at(s, needle, j),
            None => forall|j: int| !#[trigger] stands_at(s, needle, j),
        },
    decreases s.len(),
{
    lemma_find_bounds(s, needle);
    let n = needle.len() as int;
    if needle.is_prefix_of(s) {
    } else {
        assert(!stands_at(s, needle, 0)) by {
            if stands_at(s, needle, 0) {
                assert(s.subrange(0, n) =~= needle);
                assert(needle.is_prefix_of(s));
            }
        }
        if s.len() > 0 {
            let rest = s.drop_first();
            law_the_first_occurrence_is_found(rest, needle);
            assert forall|j: int| j != 0 implies #[trigger] stands_at(s, needle, j) == stands_at(
                rest,
                needle,
                j - 1,
            ) by {
                if j > 0 && j + n <= s.len() {
                    assert(s.subrange(j, j + n) =~= rest.subrange(j - 1, j - 1 + n));
                }
            }
        } else {
            assert forall|j: int| !#[trigger] stands_at(s, needle, j) by {
                if stands_at(s, needle, j) {
                    assert(j == 0);
                }
            }
        }
    }
}

/// Splitting at the first occurrence of a text loses nothing else, and leaves
/// no earlier occurrence; it fails exactly where the text does not occur.
pub proof fn law_a_split_is_at_the_first_occurrence(s: Seq<char>, needle: Seq<char>)
    ensures
        match split_once(s, needle) {
            Some((before, after)) => s == before + needle + after && forall|j: int|
                0 <= j < before.len() ==> !#[trigger] stands_at(s, needle, j),
            None => forall|j: int| !#[trigger] stands_at(s, needle, j),
        },
{
    law_the_first_occurrence_is_found(s, needle);
    if let Some(i) = find(s, needle) {
        assert(s =~= s.take(i) + s.subrange(i, i + needle.len()) + s.skip(i + needle.len()));
    }
}

/// The pieces of a split hold no separator; joined again by it they are the
/// text.
pub proof fn law_pieces_hold_no_separator(s: Seq<char>, sep: char)
    ensures
        split(s, sep).len() > 0,
        forall|i: int| 0 <= i < split(s, sep).len() ==> !(#[trigger] split(s, sep)[i]).contains(sep),
        join(split(s, sep), seq![sep]) == s,
{
    lemma_split_nonempty(s, sep);
    law_split_join(s, sep);
    assert forall|i: int| 0 <= i < split(s, sep).len() implies !(#[trigger] split(
        s,
        sep,
    )[i]).contains(sep) by {
        lemma_split_pieces(s, sep, i);
    }
}

/// Whether every character of `s` is white space.
pub open spec fn all_space(s: Seq<char>) -> bool {
    forall|i: int| 0 <= i < s.len() ==> is_space(#[trigger] s[i])
}

/// Whether `s` neither begins nor ends with white space.
pub open spec fn is_tight(s: Seq<char>) -> bool {
    s.len() > 0 ==> !is_space(s[0]) && !is_space(s.last())
}

proof fn lemma_trim_start_parts(s: Seq<char>)
    ensures
        trim_start(s).len() <= s.len(),
        trim_start(s) == s.skip(s.len() - trim_start(s).len()),
        all_space(s.take(s.len() - trim_start(s).len())),
        trim_start(s).len() > 0 ==> !is_space(trim_start(s)[0]),
    decreases s.len(),
{
    if s.len() > 0 && is_space(s[0]) {
        let rest = s.drop_first();
        lemma_trim_start_parts(rest);
        let n = s.len() - trim_start(s).len();
        assert(s.skip(n) =~= rest.skip(n - 1));
        let front = s.take(n);
        assert forall|i: int| 0 <= i < front.len() implies is_space(#[trigger] front[i]) by {
            if i > 0 {
                assert(front[i] == rest.take(n - 1)[i - 1]);
            }
        }
    } else {
        assert(s.skip(0) =~= s);
    }
}

proof fn lemma_trim_end_parts(s: Seq<char>)
    ensures
        trim_end(s).len() <= s.len(),
        trim_end(s) == s.take(trim_end(s).len() as int),
        all_space(s.skip(trim_end(s).len() as int)),
        trim_end(s).len() > 0 ==> !is_space(trim_end(s).last()),
    decreases s.len(),
{
    if s.len() > 0 && is_space(s.last()) {
        let front = s.drop_last();
        lemma_trim_end_parts(front);
        let n = trim_end(s).len() as int;
        assert(s.take(n) =~= front.take(n));
        let tail = s.skip(n);
        assert forall|i: int| 0 <= i < tail.len() implies is_space(#[trigger] tail[i]) by {
            if i < tail.len() - 1 {
                assert(tail[i] == front.skip(n)[i]);
            } else {
                assert(tail[i] == s.last());
            }
        }
    } else {
        assert(s.take(s.len() as int) =~= s);
        assert(s.skip(s.len() as int).len() == 0);
    }
}

/// Trimming takes white space away at both ends, all of it there and nothing
/// else.
pub proof fn law_trimming_takes_white_space_only(s: Seq<char>)
    ensures
        is_tight(trim(s)),
        exists|before: Seq<char>, after: Seq<char>| #[trigger]
            (before + trim(s) + after) == s && all_space(before) && all_space(after),
{
    lemma_trim_start_parts(s);
    let middle = trim_start(s);
    lemma_trim_end_parts(middle);
    let n = s.len() - middle.len();
    let m = trim(s).len() as int;
    let before = s.take(n);
    let after = middle.skip(m);
    assert(before + trim(s) + after =~= s);
    if m > 0 {
        assert(trim(s)[0] == middle[0]);
    }
}

/// White space in front of a text and behind it is trimmed away: what remains
/// is the text, if that has none of its own at its ends.
pub proof fn law_a_padded_text_is_trimmed_to_itself(
    before: Seq<char>,
    s: Seq<char>,
    after: Seq<char>,
)
    requires
        all_space(before),
        all_space(after),
        is_tight(s),
    ensures
        trim(before + s + after) == s,
{
    let whole = before + s + after;
    lemma_trim_start_parts(whole);
    let middle = trim_start(whole);
    lemma_trim_end_parts(middle);
    let t = trim(whole);
    let n = whole.len() - middle.len();
    let m = t.len() as int;
    let a = before.len() as int;
    if s.len() > 0 {
        assert(whole[a] == s[0]);
        assert(whole[a + s.len() - 1] == s.last());
        if n > a {
            assert(whole.take(n)[a] == whole[a]);
        }
        if n < a {
            assert(middle[0] == whole[n]);
            assert(whole[n] == before[n]);
        }
        assert(n == a);
        if m < s.len() {
            assert(middle.skip(m)[s.len() - 1 - m] == middle[s.len() - 1]);
            assert(middle[s.len() - 1] == whole[a + s.len() - 1]);
        }
        if m > s.len() {
            assert(t.last() == middle[m - 1]);
            assert(middle[m - 1] == whole[a + m - 1]);
            assert(whole[a + m - 1] == after[m - 1 - s.len()]);
        }
        assert(t =~= s);
    } else {
        if middle.len() > 0 {
            assert(middle[0] == whole[n]);
            if n < a {
                assert(whole[n] == before[n]);
            } else {
                assert(whole[n] == after[n - a]);
            }
        }
        assert(t =~= s);
    }
}

/// The first line of a text is what stands before its first newline, without a
/// carriage return there; the other lines are those of what follows.
pub proof fn law_lines_end_at_newlines(line: Seq<char>, rest: Seq<char>)
    requires
        !line.contains('\n'),
    ensures
        line.len() > 0 ==> lines(line) == seq![line],
        lines(Seq::<char>::empty()) == Seq::<Seq<char>>::empty(),
        (line.len() == 0 || line.last() != '\r') ==> lines(line + seq!['\n'] + rest) == seq![line]
            + lines(rest),
        lines(line + seq!['\r', '\n'] + rest) == seq![line] + lines(rest),
{
    assert(lines(Seq::<char>::empty()) =~= Seq::<Seq<char>>::empty());
    if line.len() > 0 {
        lemma_position_bounds(line, '\n');
        assert(split_lines(line) =~= seq![line]);
        assert(line.contains(line.last()));
        assert(lines(line) =~= seq![line]);
    }
    lemma_first_line(line, rest);
    let returned = line.push('\r');
    assert(!returned.contains('\n')) by {
        if returned.contains('\n') {
            let i = choose|i: int| 0 <= i < returned.len() && returned[i] == '\n';
            assert(line[i] == '\n');
        }
    }
    lemma_first_line(returned, rest);
    assert(returned + seq!['\n'] + rest =~= line + seq!['\r', '\n'] + rest);
    let ended = returned + seq!['\n'];
    assert(ended.drop_last() =~= returned);
    assert(returned.drop_last() =~= line);
    assert(seq![strip_line_end(ended)] =~= seq![line]);
    let plain = line + seq!['\n'];
    assert(plain.drop_last() =~= line);
}

proof fn lemma_first_line(line: Seq<char>, rest: Seq<char>)
    requires
        !line.contains('\n'),
    ensures
        lines(line + seq!['\n'] + rest) == seq![strip_line_end(line + seq!['\n'])] + lines(rest),
{
    let text = line + seq!['\n'] + rest;
    let n = line.len() as int;
    assert forall|j: int| 0 <= j < n implies #[trigger] text[j] != '\n' by {
        assert(text[j] == line[j]);
        assert(line.contains(line[j]));
    }
    assert(text[n] == '\n');
    lemma_position(text, '\n', n);
    assert(text.take(n + 1) =~= line + seq!['\n']);
    assert(text.skip(n + 1) =~= rest);
    assert(split_lines(text) =~= seq![line + seq!['\n']] + split_lines(rest));
    assert(lines(text) =~= seq![strip_line_end(line + seq!['\n'])] + lines(rest));
}

/// Whether `a` and `b` agree up to place `k`, where `a` ends or has the smaller
/// character.
pub open spec fn parts_at(a: Seq<char>, b: Seq<char>, k: int) -> bool {
    &&& 0 <= k <= a.len()
    &&& k < b.len()
    &&& a.take(k) == b.take(k)
    &&& k < a.len() ==> (a[k] as u32) < (b[k] as u32)
}

/// One text comes before another exactly where it is a proper beginning of it,
/// or has the smaller character at the first place at which they differ.
pub proof fn law_texts_are_ordered_by_their_first_difference(a: Seq<char>, b: Seq<char>)
    ensures
        text_lt(a, b) <==> exists|k: int| #[trigger] parts_at(a, b, k),
    decreases a.len(),
{
    if a.len() == 0 || b.len() == 0 {
        if b.len() > 0 {
            assert(a.take(0) =~= b.take(0));
            assert(parts_at(a, b, 0));
        }
    } else if a[0] != b[0] {
        assert(a.take(0) =~= b.take(0));
        assert forall|k: int| #[trigger] parts_at(a, b, k) implies k == 0 by {
            if k > 0 {
                assert(a.take(k)[0] == b.take(k)[0]);
            }
        }
        assert(text_lt(a, b) == parts_at(a, b, 0));
    } else {
        let x = a.drop_first();
        let y = b.drop_first();
        law_texts_are_ordered_by_their_first_difference(x, y);
        if text_lt(a, b) {
            let k = choose|k: int| #[trigger] parts_at(x, y, k);
            assert forall|i: int| 0 <= i < k + 1 implies #[trigger] a.take(k + 1)[i] == b.take(k + 1)[i] by {
                if i > 0 {
                    assert(x.take(k)[i - 1] == y.take(k)[i - 1]);
                }
            }
            assert(a.take(k + 1) =~= b.take(k + 1));
            assert(parts_at(a, b, k + 1));
        }
        assert forall|k: int| #[trigger] parts_at(a, b, k) implies text_lt(a, b) by {
            assert(k > 0);
            assert forall|i: int| 0 <= i < k - 1 implies #[trigger] x.take(k - 1)[i] == y.take(k - 1)[i] by {
                assert(a.take(k)[i + 1] == b.take(k)[i + 1]);
            }
            assert(x.take(k - 1) =~= y.take(k - 1));
            assert(parts_at(x, y, k - 1));
        }
    }
}

/// What stands behind the last `c` holds no `c`, and is all of the text or has
/// a `c` right in front of it.
pub proof fn law_behind_the_last_nothing_is_left(s: Seq<char>, c: char)
    ensures
        !after_last(s, c).contains(c),
        !s.contains(c) ==> after_last(s, c) == s,
        s.contains(c) ==> exists|before: Seq<char>| #[trigger]
            (before + seq![c] + after_last(s, c)) == s,
    decreases s.len(),
{
    let tail = after_last(s, c);
    if s.len() == 0 {
        assert(tail =~= s);
    } else if s.last() == c {
        assert(s.contains(c));
        assert(s.drop_last() + seq![c] + tail =~= s);
    } else {
        let front = s.drop_last();
        law_behind_the_last_nothing_is_left(front, c);
        let inner = after_last(front, c);
        assert(!tail.contains(c)) by {
            if tail.contains(c) {
                let i = choose|i: int| 0 <= i < tail.len() && tail[i] == c;
                assert(inner[i] == c);
            }
        }
        if s.contains(c) {
            let i = choose|i: int| 0 <= i < s.len() && s[i] == c;
            assert(front[i] == c);
            let before = choose|before: Seq<char>| #[trigger]
                (before + seq![c] + after_last(front, c)) == front;
            assert(before + seq![c] + tail =~= (before + seq![c] + inner).push(s.last()));
            assert(front.push(s.last()) =~= s);
        } else {
            if front.contains(c) {
                let i = choose|i: int| 0 <= i < front.len() && front[i] == c;
                assert(s[i] == c);
            }
            assert(tail =~= s);
        }
    }
}

/// Replacing leaves a text alone in which nothing is to be replaced, and
/// otherwise replaces the first occurrence and then those in what follows it.
pub proof fn law_every_occurrence_is_replaced(
    before: Seq<char>,
    after: Seq<char>,
    needle: Seq<char>,
    with: Seq<char>,
)
    requires
        needle.len() > 0,
        forall|j: int| 0 <= j < before.len() ==> !#[trigger] stands_at(
            before + needle + after,
            needle,
            j,
        ),
    ensures
        replaced(before + needle + after, needle, with) == before + with + replaced(
            after,
            needle,
            with,
        ),
        (forall|j: int| !#[trigger] stands_at(after, needle, j)) ==> replaced(after, needle, with)
            == after,
{
    let s = before + needle + after;
    let k = before.len() as int;
    assert(s.subrange(k, k + needle.len()) =~= needle);
    lemma_found_at(s, needle, k);
    assert(s.take(k) =~= before);
    assert(s.skip(k + needle.len()) =~= after);
    assert(find(after, needle) is None || !(forall|j: int| !#[trigger] stands_at(after, needle, j)))
        by {
        law_the_first_occurrence_is_found(after, needle);
    }
}

/// A text is found at a place where it stands, unless it stands before that.
pub proof fn lemma_found_at(s: Seq<char>, needle: Seq<char>, k: int)
    requires
        stands_at(s, needle, k),
        forall|j: int| 0 <= j < k ==> !#[trigger] stands_at(s, needle, j),
    ensures
        find(s, needle) == Some(k),
{
    law_the_first_occurrence_is_found(s, needle);
    if let Some(i) = find(s, needle) {
        assert(stands_at(s, needle, i));
    }
}

/// A number that is written out is read back, with a plus sign before it or
/// without; what is not digits is no number.
pub proof fn law_written_numbers_are_read_back(n: u64, s: Seq<char>)
    ensures
        unsigned_value(decimal(n as nat)) == Some(n),
        unsigned_value(seq!['+'] + decimal(n as nat)) == Some(n),
        unsigned_value(s) matches Some(value) ==> s.len() > 0 && decimal_value(
            if s[0] == '+' {
                s.skip(1)
            } else {
                s
            },
        ) == value && forall|i: int|
            0 <= i < s.len() ==> is_digit(#[trigger] s[i]) || (i == 0 && s[i] == '+' && s.len()
                > 1),
{
    law_decimal_round_trip(n as nat);
    let written = decimal(n as nat);
    assert(is_digit(written[0]));
    let signed = seq!['+'] + written;
    assert(signed.skip(1) =~= written);
    if unsigned_value(s) is Some {
        if s.len() > 1 && s[0] == '+' {
            assert forall|i: int| 0 < i < s.len() implies is_digit(#[trigger] s[i]) by {
                assert(s.skip(1)[i - 1] == s[i]);
            }
        }
    }
}

/// The printable characters of ASCII but the blank are no white space and no
/// control characters; the blank, the tabulator and the ends of lines are white
/// space, and no letter is a digit.
pub proof fn law_character_classes_agree_with_ascii(c: char)
    ensures
        0x21 <= c as u32 <= 0x7e ==> !is_space(c) && !is_control(c),
        c == ' ' || c == '\t' || c == '\n' || c == '\r' ==> is_space(c),
        (c as u32) < 0x20 ==> is_control(c),
        is_space(c) || is_control(c) ==> !is_alphanumeric(c),
        is_digit(c) ==> is_alphanumeric(c) && c as u32 <= 0x39,
        is_alphanumeric(c) ==> 0x30 <= c as u32 <= 0x7a,
{
}

} // verus!
