//! Suggestions for names that are close to a known one.

use vstd::prelude::*;
use vstd::utf8::encode_utf8;

use crate::text::{lemma_text_lt_irreflexive, lemma_text_lt_total, lemma_text_lt_transitive};
use crate::text::{optional_text, precedes, same, text_lt, texts};

verus! {

pub open spec fn least(a: nat, b: nat, c: nat) -> nat {
    if a <= b && a <= c {
        a
    } else if b <= c {
        b
    } else {
        c
    }
}

/// How many bytes must be substituted, inserted or deleted to turn `a` into `b`.
pub open spec fn distance(a: Seq<u8>, b: Seq<u8>) -> nat
    decreases a.len() + b.len(),
{
    if a.len() == 0 {
        b.len()
    } else if b.len() == 0 {
        a.len()
    } else {
        least(
            distance(a.drop_last(), b.drop_last()) + (if a.last() != b.last() {
                1nat
            } else {
                0nat
            }),
            distance(a, b.drop_last()) + 1,
            distance(a.drop_last(), b) + 1,
        )
    }
}

proof fn lemma_distance_bound(a: Seq<u8>, b: Seq<u8>)
    ensures
        distance(a, b) <= a.len() || distance(a, b) <= b.len(),
    decreases a.len() + b.len(),
{
    if a.len() > 0 && b.len() > 0 {
        lemma_distance_bound(a.drop_last(), b.drop_last());
    }
}

/// The distance does not depend on the direction.
pub proof fn law_distance_symmetric(a: Seq<u8>, b: Seq<u8>)
    ensures
        distance(a, b) == distance(b, a),
    decreases a.len() + b.len(),
{
    if a.len() > 0 && b.len() > 0 {
        law_distance_symmetric(a.drop_last(), b.drop_last());
        law_distance_symmetric(a, b.drop_last());
        law_distance_symmetric(a.drop_last(), b);
    }
}

/// Two texts are at distance zero exactly when they are equal.
pub proof fn law_distance_zero(a: Seq<u8>, b: Seq<u8>)
    ensures
        distance(a, b) == 0 <==> a == b,
    decreases a.len() + b.len(),
{
    if a.len() > 0 && b.len() > 0 {
        law_distance_zero(a.drop_last(), b.drop_last());
        if distance(a, b) == 0 {
            assert(a =~= a.drop_last().push(a.last()));
            assert(b =~= b.drop_last().push(b.last()));
        }
    } else if a.len() == 0 && b.len() == 0 {
        assert(a =~= b);
    }
}

/// Whether one byte of `a` is substituted at `at`.
pub open spec fn is_substitution(a: Seq<u8>, b: Seq<u8>, at: int) -> bool {
    0 <= at < a.len() && b.len() == a.len() && b[at] != a[at] && b == a.update(at, b[at])
}

/// Whether one byte is inserted into `a` at `at`.
pub open spec fn is_insertion(a: Seq<u8>, b: Seq<u8>, at: int) -> bool {
    0 <= at < b.len() && a == b.remove(at)
}

/// Whether one byte is substituted, inserted or deleted at `at`.
pub open spec fn is_edit_at(a: Seq<u8>, b: Seq<u8>, at: int) -> bool {
    is_substitution(a, b, at) || is_insertion(a, b, at) || is_insertion(b, a, at)
}

/// Whether `b` is one edit away from `a`.
pub open spec fn is_edit(a: Seq<u8>, b: Seq<u8>) -> bool {
    exists|at: int| #[trigger] is_edit_at(a, b, at)
}

/// Whether `path` turns `a` into `b`, one edit at a time.
pub open spec fn is_edit_path(path: Seq<Seq<u8>>, a: Seq<u8>, b: Seq<u8>) -> bool {
    &&& path.len() > 0
    &&& path[0] == a
    &&& path.last() == b
    &&& forall|i: int| 0 <= i < path.len() - 1 ==> is_edit(#[trigger] path[i], path[i + 1])
}

proof fn lemma_one_more(a: Seq<u8>, b: Seq<u8>, v: u8)
    ensures
        distance(a.push(v), b) <= distance(a, b) + 1,
        distance(a, b.push(v)) <= distance(a, b) + 1,
{
    assert(a.push(v).drop_last() =~= a);
    assert(b.push(v).drop_last() =~= b);
}

/// Texts that differ in at most one place are at distances from a third that
/// differ by at most one.
proof fn lemma_one_edit_apart(
    front: Seq<u8>,
    x: Seq<u8>,
    y: Seq<u8>,
    back: Seq<u8>,
    c: Seq<u8>,
)
    requires
        x.len() <= 1,
        y.len() <= 1,
    ensures
        distance(front + x + back, c) <= 1 + distance(front + y + back, c),
    decreases back.len() + c.len(),
{
    let a = front + x + back;
    let b = front + y + back;
    if c.len() > 0 && b.len() > 0 {
        let rest = c.drop_last();
        assert(c =~= rest.push(c.last()));
        lemma_one_edit_apart(front, x, y, back, rest);
        lemma_one_more(a, rest, c.last());
        if back.len() > 0 {
            let less = back.drop_last();
            lemma_one_edit_apart(front, x, y, less, c);
            lemma_one_edit_apart(front, x, y, less, rest);
            assert(a.drop_last() =~= front + x + less);
            assert(b.drop_last() =~= front + y + less);
            assert(a.last() == back.last() && b.last() == back.last());
        } else {
            assert(front + x + back =~= front + x);
            assert(front + y + back =~= front + y);
            if x.len() == 1 {
                assert(front + x =~= front.push(x[0]));
                assert(a.drop_last() =~= front);
                lemma_one_more(front, c, x[0]);
            } else {
                assert(a =~= front);
            }
            if y.len() == 1 {
                assert(front + y =~= front.push(y[0]));
                assert(b.drop_last() =~= front);
                lemma_one_more(front, rest, c.last());
            } else {
                assert(b =~= front);
            }
        }
    } else if c.len() > 0 {
        assert(b =~= seq![]);
        lemma_distance_bound(a, c);
        if a.len() > 0 {
            assert(a.drop_last() =~= seq![]);
            assert(distance(a, c) <= distance(a.drop_last(), c) + 1);
        }
    }
}

proof fn lemma_edit_apart(a: Seq<u8>, b: Seq<u8>, c: Seq<u8>)
    requires
        is_edit(a, b),
    ensures
        distance(a, c) <= 1 + distance(b, c),
{
    let at = choose|at: int| #[trigger] is_edit_at(a, b, at);
    if is_substitution(a, b, at) {
        let front = a.take(at);
        let back = a.skip(at + 1);
        assert(a =~= front + seq![a[at]] + back);
        assert(b =~= front + seq![b[at]] + back);
        lemma_one_edit_apart(front, seq![a[at]], seq![b[at]], back, c);
    } else if is_insertion(a, b, at) {
        let front = b.take(at);
        let back = b.skip(at + 1);
        assert(a =~= front + seq![] + back);
        assert(b =~= front + seq![b[at]] + back);
        lemma_one_edit_apart(front, seq![], seq![b[at]], back, c);
    } else {
        let front = a.take(at);
        let back = a.skip(at + 1);
        assert(b =~= front + seq![] + back);
        assert(a =~= front + seq![a[at]] + back);
        lemma_one_edit_apart(front, seq![a[at]], seq![], back, c);
    }
}

/// No fewer edits than the distance turn one text into the other.
pub proof fn law_no_fewer_edits_do(path: Seq<Seq<u8>>, a: Seq<u8>, b: Seq<u8>)
    requires
        is_edit_path(path, a, b),
    ensures
        distance(a, b) <= path.len() - 1,
    decreases path.len(),
{
    if path.len() == 1 {
        law_distance_zero(a, b);
    } else {
        let rest = path.drop_first();
        assert(rest[0] == path[1]);
        assert forall|i: int| 0 <= i < rest.len() - 1 implies is_edit(
            #[trigger] rest[i],
            rest[i + 1],
        ) by {
            assert(rest[i] == path[i + 1] && rest[i + 1] == path[i + 2]);
        }
        law_no_fewer_edits_do(rest, path[1], b);
        assert(is_edit(path[0], path[1]));
        lemma_edit_apart(a, path[1], b);
    }
}

proof fn lemma_path_then(path: Seq<Seq<u8>>, a: Seq<u8>, b: Seq<u8>, c: Seq<u8>)
    requires
        is_edit_path(path, a, b),
        is_edit(b, c),
    ensures
        is_edit_path(path.push(c), a, c),
{
    let longer = path.push(c);
    assert forall|i: int| 0 <= i < longer.len() - 1 implies is_edit(
        #[trigger] longer[i],
        longer[i + 1],
    ) by {
        assert(longer[i] == path[i]);
        if i < path.len() - 1 {
            assert(longer[i + 1] == path[i + 1]);
        }
    }
}

proof fn lemma_path_from(path: Seq<Seq<u8>>, a: Seq<u8>, b: Seq<u8>, c: Seq<u8>)
    requires
        is_edit(a, b),
        is_edit_path(path, b, c),
    ensures
        is_edit_path(seq![a] + path, a, c),
{
    let longer = seq![a] + path;
    assert forall|i: int| 0 <= i < longer.len() - 1 implies is_edit(
        #[trigger] longer[i],
        longer[i + 1],
    ) by {
        assert(longer[i + 1] == path[i]);
        if i > 0 {
            assert(longer[i] == path[i - 1]);
        }
    }
}

proof fn lemma_edit_pushed(a: Seq<u8>, b: Seq<u8>, v: u8)
    requires
        is_edit(a, b),
    ensures
        is_edit(a.push(v), b.push(v)),
{
    let at = choose|at: int| #[trigger] is_edit_at(a, b, at);
    let x = a.push(v);
    let y = b.push(v);
    if is_substitution(a, b, at) {
        assert(y =~= x.update(at, y[at]));
    } else if is_insertion(a, b, at) {
        assert(x =~= y.remove(at));
    } else {
        assert(y =~= x.remove(at));
    }
    assert(is_edit_at(x, y, at));
}

proof fn lemma_path_pushed(path: Seq<Seq<u8>>, a: Seq<u8>, b: Seq<u8>, v: u8) -> (longer: Seq<
    Seq<u8>,
>)
    requires
        is_edit_path(path, a, b),
    ensures
        is_edit_path(longer, a.push(v), b.push(v)),
        longer.len() == path.len(),
{
    let longer = path.map_values(|t: Seq<u8>| t.push(v));
    assert forall|i: int| 0 <= i < longer.len() - 1 implies is_edit(
        #[trigger] longer[i],
        longer[i + 1],
    ) by {
        assert(is_edit(path[i], path[i + 1]));
        lemma_edit_pushed(path[i], path[i + 1], v);
    }
    longer
}

/// As many edits as the distance turn one text into the other.
pub proof fn law_so_many_edits_do(a: Seq<u8>, b: Seq<u8>) -> (path: Seq<Seq<u8>>)
    ensures
        is_edit_path(path, a, b),
        path.len() == distance(a, b) + 1,
    decreases a.len() + b.len(),
{
    if a.len() == 0 && b.len() == 0 {
        assert(a =~= b);
        seq![a]
    } else {
        let less = a.drop_last();
        let rest = b.drop_last();
        if b.len() > 0 && (a.len() == 0 || distance(a, b) == distance(a, rest) + 1) {
            let path = law_so_many_edits_do(a, rest);
            assert(rest =~= b.remove(b.len() - 1));
            assert(is_edit_at(rest, b, b.len() - 1));
            lemma_path_then(path, a, rest, b);
            path.push(b)
        } else if b.len() == 0 || distance(a, b) == distance(less, b) + 1 {
            let path = law_so_many_edits_do(less, b);
            assert(less =~= a.remove(a.len() - 1));
            assert(is_edit_at(a, less, a.len() - 1));
            lemma_path_from(path, a, less, b);
            seq![a] + path
        } else {
            let path = law_so_many_edits_do(less, rest);
            let longer = lemma_path_pushed(path, less, rest, a.last());
            assert(less.push(a.last()) =~= a);
            assert(rest.push(b.last()) =~= b);
            if a.last() == b.last() {
                longer
            } else {
                let middle = rest.push(a.last());
                assert(b =~= middle.update(b.len() - 1, b[b.len() - 1]));
                assert(is_edit_at(middle, b, b.len() - 1));
                lemma_path_then(longer, a, middle, b);
                longer.push(b)
            }
        }
    }
}

/// The distance of two names.
pub open spec fn name_distance(a: Seq<char>, b: Seq<char>) -> nat {
    distance(encode_utf8(a), encode_utf8(b))
}

/// Whether `candidate` is close enough to `name` to be meant, without being it.
pub open spec fn is_close(name: Seq<char>, candidate: Seq<char>) -> bool {
    let allowed: nat = if encode_utf8(name).len() <= 4 {
        1
    } else {
        2
    };
    candidate != name && name_distance(name, candidate) <= allowed
}

/// Whether `a` is a better suggestion for `name` than `b`.
pub open spec fn is_better(name: Seq<char>, a: Seq<char>, b: Seq<char>) -> bool {
    name_distance(name, a) < name_distance(name, b) || (name_distance(name, a) == name_distance(
        name,
        b,
    ) && text_lt(a, b))
}

/// The best of the close candidates.
pub open spec fn closest(name: Seq<char>, candidates: Seq<Seq<char>>) -> Option<Seq<char>>
    decreases candidates.len(),
{
    if candidates.len() == 0 {
        None
    } else {
        let best = closest(name, candidates.drop_last());
        let candidate = candidates.last();
        if !is_close(name, candidate) {
            best
        } else {
            match best {
                None => Some(candidate),
                Some(b) => if is_better(name, candidate, b) {
                    Some(candidate)
                } else {
                    best
                },
            }
        }
    }
}

/// The suggestion is a close candidate, no other candidate is better, and there
/// is one whenever some candidate is close.
pub proof fn law_closest_is_best(name: Seq<char>, candidates: Seq<Seq<char>>)
    ensures
        match closest(name, candidates) {
            Some(best) => candidates.contains(best) && is_close(name, best) && forall|c: Seq<char>|
                candidates.contains(c) && is_close(name, c) ==> !#[trigger] is_better(name, c, best),
            None => forall|c: Seq<char>| candidates.contains(c) ==> !#[trigger] is_close(name, c),
        },
    decreases candidates.len(),
{
    if candidates.len() > 0 {
        let rest = candidates.drop_last();
        let last = candidates.last();
        law_closest_is_best(name, rest);
        assert(candidates[candidates.len() - 1] == last);
        assert forall|c: Seq<char>| candidates.contains(c) implies rest.contains(c) || c == last by {
            let k = choose|k: int| 0 <= k < candidates.len() && candidates[k] == c;
            if k < rest.len() {
                assert(rest[k] == c);
            }
        }
        assert forall|c: Seq<char>| rest.contains(c) implies candidates.contains(c) by {
            let k = choose|k: int| 0 <= k < rest.len() && rest[k] == c;
            assert(candidates[k] == c);
        }
        if let Some(best) = closest(name, candidates) {
            assert forall|c: Seq<char>|
                candidates.contains(c) && is_close(name, c) implies !#[trigger] is_better(
                name,
                c,
                best,
            ) by {
                lemma_text_lt_irreflexive(c);
                lemma_text_lt_irreflexive(best);
                if let Some(old) = closest(name, rest) {
                    if best == last && is_close(name, last) && rest.contains(c) {
                        assert(!is_better(name, c, old));
                        lemma_text_lt_total(c, old);
                        if text_lt(c, last) && text_lt(last, old) {
                            lemma_text_lt_transitive(c, last, old);
                        }
                    }
                } else {
                    assert(c == last);
                }
            }
        }
    }
}

/// How many bytes must be substituted, inserted or deleted to turn one name
/// into the other.
#[verifier::loop_isolation(false)]
pub fn edit_distance(left: &str, right: &str) -> (r: usize)
    ensures
        r == name_distance(left@, right@),
{
    let a = left.as_bytes();
    let b = right.as_bytes();
    let mut previous: Vec<u128> = Vec::new();
    let mut k: usize = 0;
    previous.push(0);
    assert(a@.take(0) =~= seq![]);
    assert(b@.take(0) =~= seq![]);
    while k < b.len()
        invariant
            k <= b@.len(),
            previous@.len() == k + 1,
            forall|j: int| 0 <= j <= k ==> #[trigger] previous@[j] == distance(a@.take(0), b@.take(j)),
        decreases b.len() - k,
    {
        k += 1;
        previous.push(k as u128);
    }
    let mut i: usize = 0;
    while i < a.len()
        invariant
            i <= a@.len(),
            previous@.len() == b@.len() + 1,
            forall|j: int|
                0 <= j <= b@.len() ==> #[trigger] previous@[j] == distance(
                    a@.take(i as int),
                    b@.take(j),
                ),
        decreases a.len() - i,
    {
        let ghost ai = a@.take(i as int + 1);
        assert(ai.drop_last() =~= a@.take(i as int));
        let mut current: Vec<u128> = Vec::new();
        current.push(i as u128 + 1);
        let mut j: usize = 0;
        while j < b.len()
            invariant
                j <= b@.len(),
                current@.len() == j + 1,
                forall|q: int|
                    0 <= q <= j ==> #[trigger] current@[q] == distance(ai, b@.take(q)),
            decreases b.len() - j,
        {
            let ghost bj = b@.take(j as int + 1);
            assert(bj.drop_last() =~= b@.take(j as int));
            proof {
                lemma_distance_bound(a@.take(i as int), b@.take(j as int));
                lemma_distance_bound(a@.take(i as int), bj);
                lemma_distance_bound(ai, b@.take(j as int));
                assert(current@[j as int] == distance(ai, b@.take(j as int)));
                assert(previous@[j as int] == distance(a@.take(i as int), b@.take(j as int)));
                assert(previous@[j as int + 1] == distance(a@.take(i as int), bj));
            }
            let changed: u128 = if a[i] != b[j] {
                1
            } else {
                0
            };
            let substitution: u128 = previous[j] + changed;
            let insertion: u128 = current[j] + 1;
            let deletion: u128 = previous[j + 1] + 1;
            let next: u128 = if substitution <= insertion && substitution <= deletion {
                substitution
            } else if insertion <= deletion {
                insertion
            } else {
                deletion
            };
            current.push(next);
            j += 1;
        }
        previous = current;
        i += 1;
    }
    assert(a@.take(i as int) =~= a@);
    assert(b@.take(b@.len() as int) =~= b@);
    proof {
        lemma_distance_bound(a@, b@);
    }
    previous[b.len()] as usize
}

/// The best of the candidates that are close to `name`.
#[verifier::loop_isolation(false)]
pub fn closest_name(name: &str, candidates: &Vec<String>) -> (r: Option<String>)
    ensures
        optional_text(r) == closest(name@, texts(candidates@)),
{
    let allowed: usize = if name.as_bytes().len() <= 4 {
        1
    } else {
        2
    };
    let ghost all = texts(candidates@);
    let mut best: Option<String> = None;
    let mut best_distance: usize = 0;
    let mut i: usize = 0;
    assert(all.take(0) =~= seq![]);
    while i < candidates.len()
        invariant
            i <= candidates@.len(),
            optional_text(best) == closest(name@, all.take(i as int)),
            best matches Some(b) ==> best_distance == name_distance(name@, b@),
        decreases candidates.len() - i,
    {
        let candidate = candidates[i].as_str();
        assert(all.take(i as int + 1).drop_last() =~= all.take(i as int));
        assert(all.take(i as int + 1).last() == candidate@);
        if !same(candidate, name) {
            let found: usize = edit_distance(name, candidate);
            if found <= allowed {
                let better: bool = match &best {
                    None => true,
                    Some(b) => found < best_distance || (found == best_distance && precedes(
                        candidate,
                        b.as_str(),
                    )),
                };
                if better {
                    best = Some(candidates[i].clone());
                    best_distance = found;
                }
            }
        }
        i += 1;
    }
    assert(all.take(i as int) =~= all);
    best
}

/// A name is suggested only for a different one that is at most two edits away, and
/// for one of up to four bytes only where a single edit is enough; every such
/// candidate is close.
pub proof fn law_suggestions_are_a_slip_away(name: Seq<char>, candidate: Seq<char>)
    ensures
        is_close(name, candidate) ==> name != candidate && distance(
            encode_utf8(name),
            encode_utf8(candidate),
        ) <= 2,
        is_close(name, candidate) && encode_utf8(name).len() <= 4 ==> distance(
            encode_utf8(name),
            encode_utf8(candidate),
        ) <= 1,
        name != candidate && distance(encode_utf8(name), encode_utf8(candidate)) <= 1 ==> is_close(
            name,
            candidate,
        ),
        name != candidate && encode_utf8(name).len() > 4 && distance(
            encode_utf8(name),
            encode_utf8(candidate),
        ) <= 2 ==> is_close(name, candidate),
{
}

/// Of two candidates the one that takes fewer edits is better, and of two that take
/// as many the one that comes first by name; one of two different ones is better.
pub proof fn law_one_of_two_candidates_is_better(name: Seq<char>, a: Seq<char>, b: Seq<char>)
    ensures
        distance(encode_utf8(name), encode_utf8(a)) < distance(encode_utf8(name), encode_utf8(b))
            ==> is_better(name, a, b) && !is_better(name, b, a),
        distance(encode_utf8(name), encode_utf8(a)) == distance(encode_utf8(name), encode_utf8(b))
            ==> (is_better(name, a, b) <==> text_lt(a, b)),
{
}

} // verus!
