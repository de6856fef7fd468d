//! Maps from text to values, kept in the order of their keys.

use vstd::prelude::*;

use crate::text::{copy_texts, lemma_text_lt_irreflexive, lemma_text_lt_total, lemma_text_lt_transitive};
use crate::text::{precedes, same, text_lt};

verus! {

/// Whether the keys of `entries` strictly increase.
pub open spec fn sorted<V>(entries: Seq<(Seq<char>, V)>) -> bool {
    forall|i: int, j: int|
        0 <= i < j < entries.len() ==> text_lt(#[trigger] entries[i].0, #[trigger] entries[j].0)
}

/// The value stored under `key`.
pub open spec fn lookup<V>(entries: Seq<(Seq<char>, V)>, key: Seq<char>) -> Option<V>
    decreases entries.len(),
{
    if entries.len() == 0 {
        None
    } else if entries[0].0 == key {
        Some(entries[0].1)
    } else {
        lookup(entries.drop_first(), key)
    }
}

/// The keys of `entries`, in order.
pub open spec fn keys<V>(entries: Seq<(Seq<char>, V)>) -> Seq<Seq<char>> {
    entries.map_values(|e: (Seq<char>, V)| e.0)
}

/// `entries` with `value` stored under `key`, at its place in the order.
pub open spec fn inserted<V>(
    entries: Seq<(Seq<char>, V)>,
    key: Seq<char>,
    value: V,
) -> Seq<(Seq<char>, V)>
    decreases entries.len(),
{
    if entries.len() == 0 {
        seq![(key, value)]
    } else if entries[0].0 == key {
        seq![(key, value)] + entries.drop_first()
    } else if text_lt(key, entries[0].0) {
        seq![(key, value)] + entries
    } else {
        seq![entries[0]] + inserted(entries.drop_first(), key, value)
    }
}

pub proof fn lemma_lookup_index<V>(entries: Seq<(Seq<char>, V)>, i: int)
    requires
        sorted(entries),
        0 <= i < entries.len(),
    ensures
        lookup(entries, entries[i].0) == Some(entries[i].1),
    decreases i,
{
    if i > 0 {
        lemma_text_lt_irreflexive(entries[0].0);
        let rest = entries.drop_first();
        assert(sorted(rest)) by {
            assert forall|a: int, b: int| 0 <= a < b < rest.len() implies text_lt(
                #[trigger] rest[a].0,
                #[trigger] rest[b].0,
            ) by {
                assert(rest[a] == entries[a + 1] && rest[b] == entries[b + 1]);
            }
        }
        lemma_lookup_index(rest, i - 1);
    }
}

/// A key is found exactly when some entry carries it.
pub proof fn lemma_lookup_some<V>(entries: Seq<(Seq<char>, V)>, key: Seq<char>)
    ensures
        lookup(entries, key) is Some <==> exists|i: int|
            0 <= i < entries.len() && #[trigger] entries[i].0 == key,
        lookup(entries, key) is Some ==> exists|i: int|
            0 <= i < entries.len() && #[trigger] entries[i] == (key, lookup(entries, key)->0),
    decreases entries.len(),
{
    if entries.len() > 0 && entries[0].0 != key {
        let rest = entries.drop_first();
        lemma_lookup_some(rest, key);
        if lookup(rest, key) is Some {
            let i = choose|i: int|
                0 <= i < rest.len() && #[trigger] rest[i] == (key, lookup(rest, key)->0);
            assert(entries[i + 1] == (key, lookup(entries, key)->0));
        }
        if exists|i: int| 0 <= i < entries.len() && #[trigger] entries[i].0 == key {
            let i = choose|i: int| 0 <= i < entries.len() && #[trigger] entries[i].0 == key;
            assert(rest[i - 1].0 == key);
        }
    } else if entries.len() > 0 {
        assert(entries[0] == (key, entries[0].1));
    }
}

/// A key gives a value exactly where the entries hold the two together.
pub proof fn law_a_key_gives_the_value_held_with_it<V>(
    entries: Seq<(Seq<char>, V)>,
    key: Seq<char>,
    value: V,
)
    requires
        sorted(entries),
    ensures
        lookup(entries, key) == Some(value) <==> entries.contains((key, value)),
        lookup(entries, key) is None <==> !keys(entries).contains(key),
{
    lemma_lookup_some(entries, key);
    if entries.contains((key, value)) {
        let i = choose|i: int| 0 <= i < entries.len() && entries[i] == (key, value);
        lemma_lookup_index(entries, i);
    }
    assert(keys(entries).len() == entries.len());
    if keys(entries).contains(key) {
        let i = choose|i: int| 0 <= i < keys(entries).len() && keys(entries)[i] == key;
        assert(entries[i].0 == key);
    }
    if lookup(entries, key) is Some {
        let i = choose|i: int| 0 <= i < entries.len() && #[trigger] entries[i].0 == key;
        assert(keys(entries)[i] == key);
    }
}

proof fn lemma_inserted_at<V>(entries: Seq<(Seq<char>, V)>, key: Seq<char>, value: V, at: int)
    requires
        0 <= at <= entries.len(),
        forall|j: int| 0 <= j < at ==> text_lt(#[trigger] entries[j].0, key),
        at < entries.len() ==> !text_lt(entries[at].0, key),
    ensures
        at < entries.len() && entries[at].0 == key ==> inserted(entries, key, value)
            == entries.update(at, (key, value)),
        !(at < entries.len() && entries[at].0 == key) ==> inserted(entries, key, value)
            == entries.insert(at, (key, value)),
    decreases at,
{
    if at == 0 {
        if entries.len() > 0 {
            lemma_text_lt_total(entries[0].0, key);
            if entries[0].0 == key {
                assert(inserted(entries, key, value) =~= entries.update(0, (key, value)));
            } else {
                assert(inserted(entries, key, value) =~= entries.insert(0, (key, value)));
            }
        } else {
            assert(inserted(entries, key, value) =~= entries.insert(0, (key, value)));
        }
    } else {
        let rest = entries.drop_first();
        assert(text_lt(entries[0].0, key));
        lemma_text_lt_irreflexive(key);
        if text_lt(key, entries[0].0) {
            lemma_text_lt_transitive(key, entries[0].0, key);
        }
        assert forall|j: int| 0 <= j < at - 1 implies text_lt(#[trigger] rest[j].0, key) by {
            assert(rest[j] == entries[j + 1]);
        }
        lemma_inserted_at(rest, key, value, at - 1);
        if at < entries.len() && entries[at].0 == key {
            assert(inserted(entries, key, value) =~= entries.update(at, (key, value)));
        } else {
            assert(inserted(entries, key, value) =~= entries.insert(at, (key, value)));
        }
    }
}

/// Storing keeps the order, and what is read back is what was stored last.
pub proof fn law_insert_lookup<V>(entries: Seq<(Seq<char>, V)>, key: Seq<char>, value: V)
    requires
        sorted(entries),
    ensures
        sorted(inserted(entries, key, value)),
        forall|k: Seq<char>| #[trigger]
            lookup(inserted(entries, key, value), k) == if k == key {
                Some(value)
            } else {
                lookup(entries, k)
            },
    decreases entries.len(),
{
    let after = inserted(entries, key, value);
    if entries.len() == 0 {
        assert(after.drop_first() =~= entries);
    } else {
        let rest = entries.drop_first();
        assert(sorted(rest)) by {
            assert forall|a: int, b: int| 0 <= a < b < rest.len() implies text_lt(
                #[trigger] rest[a].0,
                #[trigger] rest[b].0,
            ) by {
                assert(rest[a] == entries[a + 1] && rest[b] == entries[b + 1]);
            }
        }
        if entries[0].0 == key {
            assert(after.drop_first() =~= rest);
            assert forall|a: int, b: int| 0 <= a < b < after.len() implies text_lt(
                #[trigger] after[a].0,
                #[trigger] after[b].0,
            ) by {
                assert(after[a].0 == entries[a].0 && after[b].0 == entries[b].0);
            }
        } else if text_lt(key, entries[0].0) {
            assert(after.drop_first() =~= entries);
            assert forall|a: int, b: int| 0 <= a < b < after.len() implies text_lt(
                #[trigger] after[a].0,
                #[trigger] after[b].0,
            ) by {
                assert(after[b] == entries[b - 1]);
                if a > 0 {
                    assert(after[a] == entries[a - 1]);
                } else if b > 1 {
                    lemma_text_lt_transitive(key, entries[0].0, entries[b - 1].0);
                }
            }
        } else {
            law_insert_lookup(rest, key, value);
            let tail = inserted(rest, key, value);
            assert(after.drop_first() =~= tail);
            lemma_text_lt_total(entries[0].0, key);
            assert forall|b: int| 0 <= b < tail.len() implies text_lt(
                entries[0].0,
                #[trigger] tail[b].0,
            ) by {
                lemma_lookup_index(tail, b);
                if tail[b].0 != key {
                    lemma_lookup_some(rest, tail[b].0);
                    let i = choose|i: int| 0 <= i < rest.len() && #[trigger] rest[i].0 == tail[b].0;
                    assert(rest[i] == entries[i + 1]);
                }
            }
            assert forall|a: int, b: int| 0 <= a < b < after.len() implies text_lt(
                #[trigger] after[a].0,
                #[trigger] after[b].0,
            ) by {
                assert(after[b] == tail[b - 1]);
                if a > 0 {
                    assert(after[a] == tail[a - 1]);
                }
            }
        }
    }
    assert forall|k: Seq<char>| #[trigger] lookup(after, k) == if k == key {
        Some(value)
    } else {
        lookup(entries, k)
    } by {
        if entries.len() > 0 {
            let rest = entries.drop_first();
            if entries[0].0 == key {
                assert(after[0] == (key, value));
                assert(after.drop_first() =~= rest);
            } else if text_lt(key, entries[0].0) {
                assert(after[0] == (key, value));
                assert(after.drop_first() =~= entries);
            } else {
                assert(after[0] == entries[0]);
                assert(after.drop_first() =~= inserted(rest, key, value));
                assert(lookup(after, k) == if entries[0].0 == k {
                    Some(entries[0].1)
                } else {
                    lookup(inserted(rest, key, value), k)
                });
            }
        }
    }
}

/// Storing under a key beyond the last one appends.
pub proof fn lemma_inserted_last<V>(entries: Seq<(Seq<char>, V)>, key: Seq<char>, value: V)
    requires
        forall|j: int| 0 <= j < entries.len() ==> text_lt(#[trigger] entries[j].0, key),
    ensures
        inserted(entries, key, value) == entries.push((key, value)),
{
    lemma_inserted_at(entries, key, value, entries.len() as int);
    assert(entries.insert(entries.len() as int, (key, value)) =~= entries.push((key, value)));
}

/// A map from text to values, in the order of its keys.
#[derive(Debug, PartialEq, Eq)]
pub struct TextMap<V> {
    entries: Vec<(String, V)>,
}

impl<V> View for TextMap<V> {
    type V = Seq<(Seq<char>, V)>;

    closed spec fn view(&self) -> Seq<(Seq<char>, V)> {
        self.entries@.map_values(|e: (String, V)| (e.0@, e.1))
    }
}

impl<V> TextMap<V> {
    #[verifier::type_invariant]
    spec fn well_formed(self) -> bool {
        sorted(self@)
    }

    /// An empty map.
    pub fn new() -> (r: Self)
        ensures
            r@ == Seq::<(Seq<char>, V)>::empty(),
    {
        let r = TextMap { entries: Vec::new() };
        assert(r@ =~= Seq::<(Seq<char>, V)>::empty());
        r
    }

    /// The number of entries.
    pub fn len(&self) -> (r: usize)
        ensures
            r == self@.len(),
            sorted(self@),
    {
        proof {
            use_type_invariant(self);
        }
        self.entries.len()
    }

    /// Whether there is no entry.
    pub fn is_empty(&self) -> (r: bool)
        ensures
            r == (self@.len() == 0),
    {
        self.entries.len() == 0
    }

    /// The key of the entry at `index`.
    pub fn key_at(&self, index: usize) -> (r: &str)
        requires
            index < self@.len(),
        ensures
            r@ == self@[index as int].0,
    {
        self.entries[index].0.as_str()
    }

    /// The value of the entry at `index`.
    pub fn value_at(&self, index: usize) -> (r: &V)
        requires
            index < self@.len(),
        ensures
            *r == self@[index as int].1,
    {
        &self.entries[index].1
    }

    /// The value stored under `key`.
    pub fn get(&self, key: &str) -> (r: Option<&V>)
        ensures
            match r {
                Some(v) => lookup(self@, key@) == Some(*v),
                None => lookup(self@, key@) is None,
            },
    {
        let mut i: usize = 0;
        assert(self@.skip(0) =~= self@);
        while i < self.entries.len()
            invariant
                i <= self@.len(),
                self@.len() == self.entries@.len(),
                lookup(self@, key@) == lookup(self@.skip(i as int), key@),
            decreases self.entries.len() - i,
        {
            let ghost rest = self@.skip(i as int);
            assert(rest[0] == self@[i as int]);
            assert(self@[i as int] == (self.entries@[i as int].0@, self.entries@[i as int].1));
            if same(self.entries[i].0.as_str(), key) {
                return Some(&self.entries[i].1);
            }
            assert(rest.drop_first() =~= self@.skip(i as int + 1));
            i += 1;
        }
        None
    }

    /// Whether `key` has a value.
    pub fn contains_key(&self, key: &str) -> (r: bool)
        ensures
            r == lookup(self@, key@) is Some,
    {
        self.get(key).is_some()
    }

    /// Store `value` under `key`; whether the key already had a value.
    pub fn insert(&mut self, key: String, value: V) -> (r: bool)
        ensures
            final(self)@ == inserted(old(self)@, key@, value),
            r == lookup(old(self)@, key@) is Some,
    {
        proof {
            use_type_invariant(&*self);
        }
        let ghost before = self@;
        let mut entries: Vec<(String, V)> = Vec::new();
        core::mem::swap(&mut entries, &mut self.entries);
        let ghost held = entries@;
        assert(before == held.map_values(|e: (String, V)| (e.0@, e.1)));
        let mut at: usize = 0;
        while at < entries.len() && precedes(entries[at].0.as_str(), key.as_str())
            invariant
                at <= entries@.len(),
                entries@ == held,
                before == held.map_values(|e: (String, V)| (e.0@, e.1)),
                forall|j: int| 0 <= j < at ==> text_lt(#[trigger] before[j].0, key@),
            decreases entries.len() - at,
        {
            at += 1;
        }
        proof {
            lemma_inserted_at(before, key@, value, at as int);
            law_insert_lookup(before, key@, value);
            lemma_lookup_some(before, key@);
            if lookup(before, key@) is Some {
                let i = choose|i: int| 0 <= i < before.len() && #[trigger] before[i].0 == key@;
                lemma_text_lt_irreflexive(key@);
                if at < i {
                    lemma_text_lt_total(before[at as int].0, key@);
                    lemma_text_lt_transitive(before[at as int].0, before[i].0, key@);
                }
            }
        }
        let ghost spec_key = key@;
        let present: bool = at < entries.len() && same(entries[at].0.as_str(), key.as_str());
        if present {
            entries.remove(at);
            entries.insert(at, (key, value));
            assert(entries@.map_values(|e: (String, V)| (e.0@, e.1)) =~= before.update(
                at as int,
                (spec_key, value),
            ));
        } else {
            entries.insert(at, (key, value));
            assert(entries@.map_values(|e: (String, V)| (e.0@, e.1)) =~= before.insert(
                at as int,
                (spec_key, value),
            ));
        }
        self.entries = entries;
        present
    }

    /// The keys, in order.
    pub fn keys(&self) -> (r: Vec<String>)
        ensures
            crate::text::texts(r@) == keys(self@),
            sorted(self@),
    {
        proof {
            use_type_invariant(self);
        }
        let mut out: Vec<String> = Vec::new();
        let mut i: usize = 0;
        while i < self.entries.len()
            invariant
                i <= self@.len(),
                self@.len() == self.entries@.len(),
                crate::text::texts(out@) == keys(self@).take(i as int),
            decreases self.entries.len() - i,
        {
            let ghost before = crate::text::texts(out@);
            assert(self@[i as int].0 == self.entries@[i as int].0@);
            out.push(self.entries[i].0.clone());
            assert(crate::text::texts(out@) =~= before.push(self@[i as int].0));
            i += 1;
            assert(crate::text::texts(out@) =~= keys(self@).take(i as int));
        }
        assert(crate::text::texts(out@) =~= keys(self@));
        out
    }
}

impl<V: Clone> Clone for TextMap<V> {
    fn clone(&self) -> (r: Self)
        ensures
            keys(r@) == keys(self@),
            forall|i: int|
                0 <= i < r@.len() ==> cloned::<V>(self@[i].1, (#[trigger] r@[i]).1),
    {
        proof {
            use_type_invariant(self);
        }
        let mut entries: Vec<(String, V)> = Vec::new();
        let mut i: usize = 0;
        while i < self.entries.len()
            invariant
                i <= self.entries@.len(),
                entries@.len() == i,
                forall|j: int|
                    0 <= j < i ==> (#[trigger] entries@[j]).0 == self.entries@[j].0 && cloned::<V>(
                        self.entries@[j].1,
                        entries@[j].1,
                    ),
            decreases self.entries.len() - i,
        {
            entries.push((self.entries[i].0.clone(), self.entries[i].1.clone()));
            i += 1;
        }
        let ghost view = entries@.map_values(|e: (String, V)| (e.0@, e.1));
        assert forall|a: int, b: int| 0 <= a < b < view.len() implies text_lt(
            #[trigger] view[a].0,
            #[trigger] view[b].0,
        ) by {
            assert(view[a].0 == self@[a].0 && view[b].0 == self@[b].0);
        }
        assert(keys(view) =~= keys(self@));
        TextMap { entries }
    }
}

impl TextMap<String> {
    /// A copy with the same entries.
    pub fn copy(&self) -> (r: Self)
        ensures
            r@ == self@,
    {
        proof {
            use_type_invariant(self);
        }
        let mut entries: Vec<(String, String)> = Vec::new();
        let mut i: usize = 0;
        while i < self.entries.len()
            invariant
                i <= self.entries@.len(),
                entries@ == self.entries@.take(i as int),
            decreases self.entries.len() - i,
        {
            entries.push((self.entries[i].0.clone(), self.entries[i].1.clone()));
            i += 1;
            assert(entries@ =~= self.entries@.take(i as int));
        }
        assert(entries@ =~= self.entries@);
        TextMap { entries }
    }
}

impl TextMap<Vec<String>> {
    /// A copy with the same entries.
    pub fn copy(&self) -> (r: Self)
        ensures
            r@.len() == self@.len(),
            forall|i: int| 0 <= i < r@.len() ==> (#[trigger] r@[i]).0 == self@[i].0 && r@[i].1@
                == self@[i].1@,
    {
        proof {
            use_type_invariant(self);
        }
        let mut entries: Vec<(String, Vec<String>)> = Vec::new();
        let mut i: usize = 0;
        while i < self.entries.len()
            invariant
                i <= self.entries@.len(),
                entries@.len() == i,
                forall|j: int|
                    0 <= j < i ==> (#[trigger] entries@[j]).0 == self.entries@[j].0
                        && entries@[j].1@ == self.entries@[j].1@,
            decreases self.entries.len() - i,
        {
            entries.push((self.entries[i].0.clone(), copy_texts(&self.entries[i].1)));
            i += 1;
        }
        let ghost view = entries@.map_values(|e: (String, Vec<String>)| (e.0@, e.1));
        assert forall|a: int, b: int| 0 <= a < b < view.len() implies text_lt(
            #[trigger] view[a].0,
            #[trigger] view[b].0,
        ) by {
            assert(view[a].0 == self@[a].0 && view[b].0 == self@[b].0);
        }
        TextMap { entries }
    }
}

} // verus!
