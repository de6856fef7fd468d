//! Ordered file patterns, and the files that they select.

use vstd::prelude::*;
use vstd::string::StringExecFns;

use crate::cache::error::{CacheError, CacheFault};
use crate::cache::glob::{
    lemma_advance, lemma_backtrack, lemma_failure, lemma_finish, lemma_new_star,
    lemma_prefix_of_match, lemma_start, Glob,
};
use crate::map::{inserted, keys, TextMap};
use crate::path::{components, path_components};
use crate::text::{
    chars_of, holds, lemma_text_lt_total, lemma_text_lt_transitive, precedes, same, split, split_text,
    strip_prefix, text_le, text_lt, texts,
};

verus! {

/// A greedy search for `pattern` in `value`, at `i` and `j`. A character that
/// stands in both is taken literally, a `*` too; `mark` is the place behind
/// the last wildcard, and `from` is where what follows it was last tried.
pub open spec fn scan(
    value: Seq<char>,
    pattern: Seq<char>,
    i: int,
    j: int,
    mark: Option<int>,
    from: int,
) -> bool
    decreases
            pattern.len() - (match mark {
                Some(a) => a,
                None => 0,
            }),
            value.len() - from,
            value.len() - i,
    when 0 <= from <= i && 0 <= j <= pattern.len() && (match mark {
        Some(a) => 0 < a <= j,
        None => true,
    })
{
    if i >= value.len() {
        forall|k: int| j <= k < pattern.len() ==> #[trigger] pattern[k] == '*'
    } else if j < pattern.len() && pattern[j] == value[i] {
        scan(value, pattern, i + 1, j + 1, mark, from)
    } else if j < pattern.len() && pattern[j] == '*' {
        scan(value, pattern, i, j + 1, Some(j + 1), i)
    } else {
        match mark {
            Some(a) => scan(value, pattern, from + 1, a, mark, from + 1),
            None => false,
        }
    }
}

/// Whether `pattern` matches the path segment `value`.
pub open spec fn segment_fits(value: Seq<char>, pattern: Seq<char>) -> bool {
    scan(value, pattern, 0, 0, None, 0)
}

/// The matching problem of a segment: a `*` matches any run of characters.
pub open spec fn segment_glob(value: Seq<char>, pattern: Seq<char>) -> Glob {
    Glob {
        fits: |i: int, j: int| pattern[j] == value[i],
        star: |j: int| pattern[j] == '*',
        n: value.len() as int,
        m: pattern.len() as int,
        prefix: false,
    }
}

proof fn lemma_scan(
    value: Seq<char>,
    pattern: Seq<char>,
    i: int,
    j: int,
    mark: Option<int>,
    from: int,
)
    requires
        !value.contains('*'),
        segment_glob(value, pattern).knows(i, j, mark, from),
        mark is None ==> from == 0,
    ensures
        scan(value, pattern, i, j, mark, from) == segment_glob(value, pattern).matches_from(0, 0),
    decreases
            pattern.len() - (match mark {
                Some(a) => a,
                None => 0,
            }),
            value.len() - from,
            value.len() - i,
{
    let g = segment_glob(value, pattern);
    if i >= value.len() {
        lemma_finish(g, j, mark, from);
        if scan(value, pattern, i, j, mark, from) {
            assert forall|k: int| j <= k < g.m implies #[trigger] (g.star)(k) by {
                assert(pattern[k] == '*');
            }
        }
        if forall|k: int| j <= k < g.m ==> #[trigger] (g.star)(k) {
            assert forall|k: int| j <= k < pattern.len() implies #[trigger] pattern[k] == '*' by {
                assert((g.star)(k));
            }
        }
    } else {
        assert(value[i] != '*');
        if j < pattern.len() && pattern[j] == value[i] {
            lemma_advance(g, i, j, mark, from);
            lemma_scan(value, pattern, i + 1, j + 1, mark, from);
        } else if j < pattern.len() && pattern[j] == '*' {
            lemma_new_star(g, i, j, mark, from);
            lemma_scan(value, pattern, i, j + 1, Some(j + 1), i);
        } else {
            match mark {
                Some(a) => {
                    lemma_backtrack(g, i, j, a, from);
                    lemma_scan(value, pattern, from + 1, a, mark, from + 1);
                },
                None => {
                    lemma_failure(g, i, j);
                },
            }
        }
    }
}

/// A `*` in a pattern matches any run of characters, and every other character
/// itself, in every name that has no `*` in it.
pub proof fn law_star_matches_any_run(value: Seq<char>, pattern: Seq<char>)
    requires
        !value.contains('*'),
    ensures
        segment_fits(value, pattern) == segment_glob(value, pattern).matches_from(0, 0),
{
    lemma_start(segment_glob(value, pattern));
    lemma_scan(value, pattern, 0, 0, None, 0);
}

/// A pattern matches the name that is spelt like it.
pub proof fn law_a_pattern_matches_itself(pattern: Seq<char>)
    ensures
        segment_fits(pattern, pattern),
{
    lemma_literal(pattern, 0);
}

proof fn lemma_literal(pattern: Seq<char>, i: int)
    requires
        0 <= i <= pattern.len(),
    ensures
        scan(pattern, pattern, i, i, None, 0),
    decreases pattern.len() - i,
{
    if i < pattern.len() {
        lemma_literal(pattern, i + 1);
    }
}

/// The matching problem of a path: a segment `**` matches any run of segments.
pub open spec fn path_glob(path: Seq<Seq<char>>, pattern: Seq<Seq<char>>, prefix: bool) -> Glob {
    Glob {
        fits: |i: int, j: int| segment_fits(path[i], pattern[j]),
        star: |j: int| pattern[j] == "**"@,
        n: path.len() as int,
        m: pattern.len() as int,
        prefix,
    }
}

/// Whether the segments of a pattern match those of a path.
pub open spec fn path_fits(path: Seq<Seq<char>>, pattern: Seq<Seq<char>>) -> bool {
    path_glob(path, pattern, false).matches_from(0, 0)
}

/// Whether a directory can be the beginning of a path that the pattern matches.
pub open spec fn directory_fits(path: Seq<Seq<char>>, pattern: Seq<Seq<char>>) -> bool {
    path_glob(path, pattern, true).matches_from(0, 0)
}

/// A directory is pruned only where nothing below it matches.
pub proof fn law_pruning_loses_nothing(
    directory: Seq<Seq<char>>,
    rest: Seq<Seq<char>>,
    pattern: Seq<Seq<char>>,
)
    requires
        path_fits(directory + rest, pattern),
    ensures
        directory_fits(directory, pattern),
{
    let whole = path_glob(directory + rest, pattern, false);
    let part = path_glob(directory, pattern, true);
    assert forall|a: int, b: int|
        0 <= a < part.n && 0 <= b < part.m implies #[trigger] (part.fits)(a, b) == (whole.fits)(
        a,
        b,
    ) by {
        assert((directory + rest)[a] == directory[a]);
    }
    lemma_prefix_of_match(whole, part, 0, 0);
}

/// Whether `pattern` matches the path segment `value`.
#[verifier::loop_isolation(false)]
pub fn segment_matches(value: &str, pattern: &str) -> (r: bool)
    ensures
        r == segment_fits(value@, pattern@),
{
    let text = chars_of(value);
    let wild = chars_of(pattern);
    let ghost v = value@;
    let ghost p = pattern@;
    let mut i: usize = 0;
    let mut j: usize = 0;
    let mut mark: Option<usize> = None;
    let mut from: usize = 0;
    while i < text.len()
        invariant
            text@ == v,
            wild@ == p,
            from <= i <= v.len(),
            j <= p.len(),
            match mark {
                Some(a) => 0 < a <= j,
                None => true,
            },
            segment_fits(v, p) == scan(
                v,
                p,
                i as int,
                j as int,
                match mark {
                    Some(a) => Some(a as int),
                    None => None,
                },
                from as int,
            ),
        decreases
                wild.len() - (match mark {
                    Some(a) => a as int,
                    None => 0,
                }),
                text.len() - from,
                text.len() - i,
    {
        if j < wild.len() && wild[j] == text[i] {
            i += 1;
            j += 1;
        } else if j < wild.len() && wild[j] == '*' {
            j += 1;
            mark = Some(j);
            from = i;
        } else {
            match mark {
                Some(a) => {
                    from += 1;
                    i = from;
                    j = a;
                },
                None => {
                    return false;
                },
            }
        }
    }
    let mut k: usize = j;
    while k < wild.len()
        invariant
            wild@ == p,
            j <= k <= p.len(),
            forall|x: int| j <= x < k ==> #[trigger] p[x] == '*',
            segment_fits(v, p) == forall|x: int| j <= x < p.len() ==> #[trigger] p[x] == '*',
        decreases wild.len() - k,
    {
        if wild[k] != '*' {
            assert(p[k as int] != '*');
            return false;
        }
        k += 1;
    }
    true
}

/// Match path segments with `**` by greedy backtracking. `prefix` allows a
/// directory to end before the pattern does, because the rest of the pattern
/// may match descendants.
pub fn match_path_segments(path: &Vec<String>, pattern: &Vec<String>, prefix: bool) -> (r: bool)
    ensures
        r == path_glob(texts(path@), texts(pattern@), prefix).matches_from(0, 0),
{
    let ghost g = path_glob(texts(path@), texts(pattern@), prefix);
    let mut i: usize = 0;
    let mut j: usize = 0;
    let mut mark: Option<usize> = None;
    let mut from: usize = 0;
    proof {
        lemma_start(g);
    }
    while i < path.len()
        invariant
            g == path_glob(texts(path@), texts(pattern@), prefix),
            from <= i <= path@.len(),
            j <= pattern@.len(),
            mark is None ==> from == 0,
            match mark {
                Some(a) => 0 < a <= j,
                None => true,
            },
            g.knows(
                i as int,
                j as int,
                match mark {
                    Some(a) => Some(a as int),
                    None => None,
                },
                from as int,
            ),
        decreases
                pattern.len() - (match mark {
                    Some(a) => a as int,
                    None => 0,
                }),
                path.len() - from,
                path.len() - i,
    {
        let ghost marked: Option<int> = match mark {
            Some(a) => Some(a as int),
            None => None,
        };
        if j < pattern.len() && !same(pattern[j].as_str(), "**") && segment_matches(
            path[i].as_str(),
            pattern[j].as_str(),
        ) {
            proof {
                lemma_advance(g, i as int, j as int, marked, from as int);
            }
            i += 1;
            j += 1;
        } else if j < pattern.len() && same(pattern[j].as_str(), "**") {
            proof {
                lemma_new_star(g, i as int, j as int, marked, from as int);
            }
            j += 1;
            mark = Some(j);
            from = i;
        } else {
            match mark {
                Some(a) => {
                    proof {
                        lemma_backtrack(g, i as int, j as int, a as int, from as int);
                    }
                    from += 1;
                    i = from;
                    j = a;
                },
                None => {
                    proof {
                        lemma_failure(g, i as int, j as int);
                    }
                    return false;
                },
            }
        }
    }
    proof {
        let marked: Option<int> = match mark {
            Some(a) => Some(a as int),
            None => None,
        };
        lemma_finish(g, j as int, marked, from as int);
    }
    if prefix {
        return true;
    }
    let mut k: usize = j;
    while k < pattern.len()
        invariant
            g == path_glob(texts(path@), texts(pattern@), prefix),
            !prefix,
            j <= k <= pattern@.len(),
            forall|x: int| j <= x < k ==> #[trigger] (g.star)(x),
            g.matches_from(0, 0) == (g.prefix || forall|x: int|
                j <= x < g.m ==> #[trigger] (g.star)(x)),
        decreases pattern.len() - k,
    {
        if !same(pattern[k].as_str(), "**") {
            assert(!(g.star)(k as int));
            return false;
        }
        assert((g.star)(k as int));
        k += 1;
    }
    true
}

/// One pattern, taken apart.
#[derive(Debug, Clone, PartialEq, Eq)]
pub struct CachePattern {
    pub source: String,
    pub exclude: bool,
    pub segments: Vec<String>,
}

/// What a pattern says.
pub struct PatternView {
    pub source: Seq<char>,
    pub exclude: bool,
    pub segments: Seq<Seq<char>>,
}

impl View for CachePattern {
    type V = PatternView;

    open spec fn view(&self) -> PatternView {
        PatternView {
            source: self.source@,
            exclude: self.exclude,
            segments: texts(self.segments@),
        }
    }
}

/// A pattern taken apart: a leading `!` makes it exclude what it matches.
pub open spec fn compiled(pattern: Seq<char>) -> PatternView {
    let exclude = "!"@.is_prefix_of(pattern);
    let source = if exclude {
        pattern.skip("!"@.len() as int)
    } else {
        pattern
    };
    PatternView { source, exclude, segments: split(source, '/') }
}

/// Patterns taken apart once, so that a walk does not split them for every
/// entry that it visits.
#[derive(Debug, Clone, PartialEq, Eq)]
pub struct CachePatterns {
    pub patterns: Vec<CachePattern>,
}

impl View for CachePatterns {
    type V = Seq<PatternView>;

    open spec fn view(&self) -> Seq<PatternView> {
        self.patterns@.map_values(|p: CachePattern| p@)
    }
}

/// The patterns of a list, taken apart.
pub open spec fn all_compiled(patterns: Seq<Seq<char>>) -> Seq<PatternView> {
    patterns.map_values(|p: Seq<char>| compiled(p))
}

/// Whether the ordered patterns select a path: the last one that matches
/// decides.
pub open spec fn selects(patterns: Seq<PatternView>, path: Seq<Seq<char>>) -> bool
    decreases patterns.len(),
{
    if patterns.len() == 0 {
        false
    } else if path_fits(path, patterns.last().segments) {
        !patterns.last().exclude
    } else {
        selects(patterns.drop_last(), path)
    }
}

/// Whether a pattern that selects can still match a path below `directory`.
pub open spec fn reaches_below(patterns: Seq<PatternView>, directory: Seq<Seq<char>>) -> bool {
    exists|k: int|
        0 <= k < patterns.len() && !(#[trigger] patterns[k]).exclude && directory_fits(
            directory,
            patterns[k].segments,
        )
}

/// No selected file lies below a directory that is not walked.
pub proof fn law_selected_paths_are_reached(
    patterns: Seq<PatternView>,
    directory: Seq<Seq<char>>,
    rest: Seq<Seq<char>>,
)
    requires
        selects(patterns, directory + rest),
    ensures
        reaches_below(patterns, directory),
    decreases patterns.len(),
{
    let last = patterns.last();
    if path_fits(directory + rest, last.segments) {
        law_pruning_loses_nothing(directory, rest, last.segments);
        assert(patterns[patterns.len() - 1] == last);
    } else {
        let front = patterns.drop_last();
        law_selected_paths_are_reached(front, directory, rest);
        let k = choose|k: int|
            0 <= k < front.len() && !(#[trigger] front[k]).exclude && directory_fits(
                directory,
                front[k].segments,
            );
        assert(patterns[k] == front[k]);
    }
}

/// The kind of a directory entry.
#[derive(Debug, Clone, Copy, PartialEq, Eq, Structural)]
pub enum EntryKind {
    Directory,
    File,
    Symlink,
    Other,
}

/// A directory entry, named from the directory in which a walk started.
#[derive(Debug, Clone, PartialEq, Eq)]
pub struct WalkEntry {
    pub path: String,
    pub kind: EntryKind,
}

/// What to do with a directory entry.
#[derive(Debug, Clone, Copy, PartialEq, Eq, Structural)]
pub enum WalkStep {
    Skip,
    Descend,
    Keep,
}

/// Whether a path leads through the directories that are never walked.
pub open spec fn is_hidden(path: Seq<char>) -> bool {
    components(path).contains(".git"@) || components(path).contains(".mono"@)
}

/// Whether a path leads through the directories that are never walked.
pub fn hidden(path: &str) -> (r: bool)
    ensures
        r == is_hidden(path@),
{
    let parts = path_components(path);
    holds(&parts, ".git") || holds(&parts, ".mono")
}

impl CachePatterns {
    /// Take the patterns of a list apart.
    pub fn compile(patterns: &Vec<String>) -> (r: CachePatterns)
        ensures
            r@ == all_compiled(texts(patterns@)),
    {
        let mut out: Vec<CachePattern> = Vec::new();
        let ghost all = all_compiled(texts(patterns@));
        let mut i: usize = 0;
        while i < patterns.len()
            invariant
                i <= patterns@.len(),
                all == all_compiled(texts(patterns@)),
                out@.map_values(|p: CachePattern| p@) == all.take(i as int),
            decreases patterns.len() - i,
        {
            let ghost before = out@.map_values(|p: CachePattern| p@);
            let pattern = match strip_prefix(patterns[i].as_str(), "!") {
                Some(source) => {
                    let segments = split_text(source.as_str(), '/');
                    CachePattern { source, exclude: true, segments }
                },
                None => CachePattern {
                    source: patterns[i].clone(),
                    exclude: false,
                    segments: split_text(patterns[i].as_str(), '/'),
                },
            };
            assert(pattern@ == all[i as int]);
            out.push(pattern);
            assert(out@.map_values(|p: CachePattern| p@) =~= before.push(pattern@));
            i += 1;
            assert(out@.map_values(|p: CachePattern| p@) =~= all.take(i as int));
        }
        assert(all.take(i as int) =~= all);
        CachePatterns { patterns: out }
    }

    /// Select a path the same way the manifest's ordered pattern list does.
    pub fn matches(&self, path: &str) -> (r: bool)
        ensures
            r == selects(self@, split(path@, '/')),
    {
        let parts = split_text(path, '/');
        let ghost all = self@;
        let mut selected: bool = false;
        let mut i: usize = 0;
        while i < self.patterns.len()
            invariant
                i <= self.patterns@.len(),
                all == self@,
                texts(parts@) == split(path@, '/'),
                selected == selects(all.take(i as int), split(path@, '/')),
            decreases self.patterns.len() - i,
        {
            let ghost next = all.take(i as int + 1);
            assert(next.drop_last() =~= all.take(i as int));
            assert(next.last() == self.patterns[i as int]@);
            if match_path_segments(&parts, &self.patterns[i].segments, false) {
                selected = !self.patterns[i].exclude;
            }
            i += 1;
        }
        assert(all.take(i as int) =~= all);
        selected
    }

    /// Whether any positive pattern can still match a path below `directory`.
    pub fn could_match_below(&self, directory: &str) -> (r: bool)
        ensures
            r == reaches_below(self@, split(directory@, '/')),
    {
        let parts = split_text(directory, '/');
        let mut i: usize = 0;
        while i < self.patterns.len()
            invariant
                i <= self.patterns@.len(),
                texts(parts@) == split(directory@, '/'),
                forall|k: int|
                    0 <= k < i ==> (#[trigger] self@[k]).exclude || !directory_fits(
                        split(directory@, '/'),
                        self@[k].segments,
                    ),
            decreases self.patterns.len() - i,
        {
            assert(self@[i as int] == self.patterns[i as int]@);
            if !self.patterns[i].exclude && match_path_segments(
                &parts,
                &self.patterns[i].segments,
                true,
            ) {
                return true;
            }
            i += 1;
        }
        false
    }

    /// What a walk does with an entry.
    pub fn walk_step(&self, entry: &WalkEntry) -> (r: WalkStep)
        ensures
            r == if is_hidden(entry.path@) {
                WalkStep::Skip
            } else {
                match entry.kind {
                    EntryKind::Directory => if reaches_below(self@, split(entry.path@, '/')) {
                        WalkStep::Descend
                    } else {
                        WalkStep::Skip
                    },
                    EntryKind::File => WalkStep::Keep,
                    EntryKind::Symlink => WalkStep::Keep,
                    EntryKind::Other => WalkStep::Skip,
                }
            },
    {
        if hidden(entry.path.as_str()) {
            return WalkStep::Skip;
        }
        match entry.kind {
            EntryKind::Directory => {
                if self.could_match_below(entry.path.as_str()) {
                    WalkStep::Descend
                } else {
                    WalkStep::Skip
                }
            },
            EntryKind::File => WalkStep::Keep,
            EntryKind::Symlink => WalkStep::Keep,
            EntryKind::Other => WalkStep::Skip,
        }
    }
}

/// Whether an entry is of `kind` and on a path that is walked.
pub open spec fn counts_as(entry: WalkEntry, kind: EntryKind) -> bool {
    entry.kind == kind && !is_hidden(entry.path@)
}

/// The selected files among the first `count` entries, in order, each once.
pub open spec fn selected_files(
    patterns: Seq<PatternView>,
    entries: Seq<WalkEntry>,
    count: nat,
) -> Seq<(Seq<char>, bool)>
    decreases count,
{
    if count == 0 {
        Seq::empty()
    } else {
        let earlier = selected_files(patterns, entries, (count - 1) as nat);
        let entry = entries[count - 1];
        if counts_as(entry, EntryKind::File) && selects(patterns, split(entry.path@, '/')) {
            inserted(earlier, entry.path@, true)
        } else {
            earlier
        }
    }
}

/// The first, by name, of the selected symbolic links among the first `count`
/// entries.
pub open spec fn first_symlink(
    patterns: Seq<PatternView>,
    entries: Seq<WalkEntry>,
    count: nat,
) -> Option<Seq<char>>
    decreases count,
{
    if count == 0 {
        None
    } else {
        let earlier = first_symlink(patterns, entries, (count - 1) as nat);
        let entry = entries[count - 1];
        if counts_as(entry, EntryKind::Symlink) && selects(patterns, split(entry.path@, '/')) && (
        match earlier {
            Some(path) => text_lt(entry.path@, path),
            None => true,
        }) {
            Some(entry.path@)
        } else {
            earlier
        }
    }
}

/// Whether a pattern matches one of the first `count` files.
pub open spec fn finds_file(pattern: PatternView, entries: Seq<WalkEntry>, count: nat) -> bool {
    exists|e: int|
        0 <= e < count && counts_as(#[trigger] entries[e], EntryKind::File) && path_fits(
            split(entries[e].path@, '/'),
            pattern.segments,
        )
}

/// The first of `count` patterns that should select and matches no file.
pub open spec fn unmatched(
    patterns: Seq<PatternView>,
    entries: Seq<WalkEntry>,
    count: nat,
) -> Option<Seq<char>>
    decreases count,
{
    if count == 0 {
        None
    } else {
        match unmatched(patterns, entries, (count - 1) as nat) {
            Some(source) => Some(source),
            None => if !patterns[count - 1].exclude && !finds_file(
                patterns[count - 1],
                entries,
                entries.len(),
            ) {
                Some(patterns[count - 1].source)
            } else {
                None
            },
        }
    }
}

/// The files that `patterns` select. Every pattern that selects has to match a
/// file, and no selected entry may be a symbolic link.
pub open spec fn collected(
    patterns: Seq<PatternView>,
    entries: Seq<WalkEntry>,
    kind: Seq<char>,
) -> Result<Seq<Seq<char>>, CacheFault> {
    match unmatched(patterns, entries, patterns.len()) {
        Some(source) => Err(
            CacheFault::Invalid { message: kind + " pattern '"@ + source + "' matched no files"@ },
        ),
        None => match first_symlink(patterns, entries, entries.len()) {
            Some(path) => Err(
                CacheFault::Invalid {
                    message: kind + " pattern matches unsupported symlink '"@ + path + "'"@,
                },
            ),
            None => Ok(keys(selected_files(patterns, entries, entries.len()))),
        },
    }
}

/// Collect every file among `entries` that `patterns` select, rejecting the
/// symlink matches that content addressing cannot represent.
pub fn collect_files(entries: &Vec<WalkEntry>, patterns: &Vec<String>, kind: &str) -> (r: Result<
    Vec<String>,
    CacheError,
>)
    ensures
        match r {
            Ok(files) => collected(all_compiled(texts(patterns@)), entries@, kind@) == Ok::<
                Seq<Seq<char>>,
                CacheFault,
            >(texts(files@)),
            Err(e) => collected(all_compiled(texts(patterns@)), entries@, kind@) == Err::<
                Seq<Seq<char>>,
                CacheFault,
            >(e@),
        },
{
    let compiled = CachePatterns::compile(patterns);
    let ghost all = compiled@;
    let mut files: TextMap<bool> = TextMap::new();
    let mut symlink: Option<String> = None;
    let mut e: usize = 0;
    while e < entries.len()
        invariant
            e <= entries@.len(),
            all == compiled@,
            files@ == selected_files(all, entries@, e as nat),
            crate::text::optional_text(symlink) == first_symlink(all, entries@, e as nat),
        decreases entries.len() - e,
    {
        let entry = &entries[e];
        if !hidden(entry.path.as_str()) && compiled.matches(entry.path.as_str()) {
            match entry.kind {
                EntryKind::File => {
                    files.insert(entry.path.clone(), true);
                },
                EntryKind::Symlink => {
                    let earlier: bool = match &symlink {
                        Some(path) => precedes(entry.path.as_str(), path.as_str()),
                        None => true,
                    };
                    if earlier {
                        symlink = Some(entry.path.clone());
                    }
                },
                _ => {},
            }
        }
        e += 1;
    }
    let mut k: usize = 0;
    while k < compiled.patterns.len()
        invariant
            k <= compiled.patterns@.len(),
            all == compiled@,
            all == all_compiled(texts(patterns@)),
            unmatched(all, entries@, k as nat) is None,
        decreases compiled.patterns.len() - k,
    {
        assert(all[k as int] == compiled.patterns[k as int]@);
        if !compiled.patterns[k].exclude && !matches_some_file(&compiled.patterns[k], entries) {
            let mut message = kind.to_owned();
            message.append(" pattern '");
            message.append(compiled.patterns[k].source.as_str());
            message.append("' matched no files");
            proof {
                lemma_unmatched_stays(all, entries@, (k + 1) as nat, all.len());
            }
            return Err(CacheError::Invalid { message });
        }
        k += 1;
    }
    if let Some(path) = symlink {
        let mut message = kind.to_owned();
        message.append(" pattern matches unsupported symlink '");
        message.append(path.as_str());
        message.append("'");
        return Err(CacheError::Invalid { message });
    }
    Ok(files.keys())
}

proof fn lemma_unmatched_stays(
    patterns: Seq<PatternView>,
    entries: Seq<WalkEntry>,
    k: nat,
    count: nat,
)
    requires
        k <= count,
        unmatched(patterns, entries, k) is Some,
    ensures
        unmatched(patterns, entries, count) == unmatched(patterns, entries, k),
    decreases count,
{
    if k < count {
        lemma_unmatched_stays(patterns, entries, k, (count - 1) as nat);
    }
}

fn matches_some_file(pattern: &CachePattern, entries: &Vec<WalkEntry>) -> (r: bool)
    ensures
        r == finds_file(pattern@, entries@, entries@.len()),
{
    let mut e: usize = 0;
    while e < entries.len()
        invariant
            e <= entries@.len(),
            !finds_file(pattern@, entries@, e as nat),
        decreases entries.len() - e,
    {
        let entry = &entries[e];
        assert(entries@[e as int] == *entry);
        if entry.kind == EntryKind::File && !hidden(entry.path.as_str()) && match_path_segments(
            &split_text(entry.path.as_str(), '/'),
            &pattern.segments,
            false,
        ) {
            assert(counts_as(entries@[e as int], EntryKind::File));
            return true;
        }
        e += 1;
    }
    false
}

/// The collected files are exactly the selected ones.
pub proof fn law_collected_files_are_the_selected_ones(
    patterns: Seq<PatternView>,
    entries: Seq<WalkEntry>,
    path: Seq<char>,
    count: nat,
)
    requires
        count <= entries.len(),
    ensures
        keys(selected_files(patterns, entries, count)).contains(path) <==> (exists|e: int|
            0 <= e < count && counts_as(#[trigger] entries[e], EntryKind::File) && entries[e].path@
                == path && selects(patterns, split(path, '/'))),
        crate::map::sorted(selected_files(patterns, entries, count)),
    decreases count,
{
    if count > 0 {
        let earlier = selected_files(patterns, entries, (count - 1) as nat);
        let now = selected_files(patterns, entries, count);
        law_collected_files_are_the_selected_ones(patterns, entries, path, (count - 1) as nat);
        let entry = entries[count - 1];
        crate::map::lemma_lookup_some(earlier, path);
        crate::map::lemma_lookup_some(now, path);
        lemma_keys_contain(earlier, path);
        lemma_keys_contain(now, path);
        if counts_as(entry, EntryKind::File) && selects(patterns, split(entry.path@, '/')) {
            crate::map::law_insert_lookup(earlier, entry.path@, true);
            assert(crate::map::lookup(now, path) == if path == entry.path@ {
                Some(true)
            } else {
                crate::map::lookup(earlier, path)
            });
        }
    }
}

proof fn lemma_keys_contain(entries: Seq<(Seq<char>, bool)>, path: Seq<char>)
    ensures
        keys(entries).contains(path) <==> exists|i: int|
            0 <= i < entries.len() && #[trigger] entries[i].0 == path,
{
    if keys(entries).contains(path) {
        let i = choose|i: int| 0 <= i < keys(entries).len() && keys(entries)[i] == path;
        assert(entries[i].0 == path);
    }
    if exists|i: int| 0 <= i < entries.len() && #[trigger] entries[i].0 == path {
        let i = choose|i: int| 0 <= i < entries.len() && #[trigger] entries[i].0 == path;
        assert(keys(entries)[i] == path);
    }
}

/// A path is selected exactly where a pattern that does not exclude matches it
/// and no later pattern does: the last pattern that matches decides.
pub proof fn law_the_last_matching_pattern_decides(
    patterns: Seq<PatternView>,
    path: Seq<Seq<char>>,
)
    ensures
        selects(patterns, path) <==> exists|k: int|
            0 <= k < patterns.len() && !(#[trigger] patterns[k]).exclude && path_fits(
                path,
                patterns[k].segments,
            ) && forall|j: int|
                k < j < patterns.len() ==> !path_fits(path, (#[trigger] patterns[j]).segments),
    decreases patterns.len(),
{
    if patterns.len() > 0 {
        let front = patterns.drop_last();
        let last = patterns.len() - 1;
        law_the_last_matching_pattern_decides(front, path);
        assert(patterns[last] == patterns.last());
        if path_fits(path, patterns.last().segments) {
        } else if selects(front, path) {
            let k = choose|k: int|
                0 <= k < front.len() && !(#[trigger] front[k]).exclude && path_fits(
                    path,
                    front[k].segments,
                ) && forall|j: int|
                    k < j < front.len() ==> !path_fits(path, (#[trigger] front[j]).segments);
            assert(patterns[k] == front[k]);
            assert forall|j: int| k < j < patterns.len() implies !path_fits(
                path,
                (#[trigger] patterns[j]).segments,
            ) by {
                if j < last {
                    assert(front[j] == patterns[j]);
                }
            }
        } else if exists|k: int|
            0 <= k < patterns.len() && !(#[trigger] patterns[k]).exclude && path_fits(
                path,
                patterns[k].segments,
            ) && forall|j: int|
                k < j < patterns.len() ==> !path_fits(path, (#[trigger] patterns[j]).segments) {
            let k = choose|k: int|
                0 <= k < patterns.len() && !(#[trigger] patterns[k]).exclude && path_fits(
                    path,
                    patterns[k].segments,
                ) && forall|j: int|
                    k < j < patterns.len() ==> !path_fits(path, (#[trigger] patterns[j]).segments);
            assert(front[k] == patterns[k]);
            assert forall|j: int| k < j < front.len() implies !path_fits(
                path,
                (#[trigger] front[j]).segments,
            ) by {
                assert(front[j] == patterns[j]);
            }
        }
    }
}

/// A pattern behind a `!` excludes what the pattern without it selects.
pub proof fn law_a_mark_turns_a_pattern_round(pattern: Seq<char>)
    requires
        pattern.len() == 0 || pattern[0] != '!',
    ensures
        compiled(pattern) == (PatternView {
            source: pattern,
            exclude: false,
            segments: split(pattern, '/'),
        }),
        compiled(seq!['!'] + pattern) == (PatternView { exclude: true, ..compiled(pattern) }),
{
    reveal_strlit("!");
    let marked = seq!['!'] + pattern;
    assert("!"@ =~= seq!['!']);
    assert("!"@.is_prefix_of(marked));
    assert(marked.skip(1) =~= pattern);
    if "!"@.is_prefix_of(pattern) {
        assert(pattern.subrange(0, 1)[0] == pattern[0]);
    }
}

/// Collecting gives the plain files on walked paths that the patterns select,
/// each once and in the order of their names. It fails exactly where a pattern
/// that should select matches no such file, or where one selects a symbolic
/// link.
pub proof fn law_collecting_gives_the_selected_files(
    patterns: Seq<PatternView>,
    entries: Seq<WalkEntry>,
    kind: Seq<char>,
)
    ensures
        collected(patterns, entries, kind) matches Ok(files) ==> (forall|path: Seq<char>|
            #[trigger] files.contains(path) <==> selects(patterns, split(path, '/'))
                && walks_over(entries, path, EntryKind::File)) && (forall|i: int, j: int|
            0 <= i < j < files.len() ==> text_lt(#[trigger] files[i], #[trigger] files[j])),
        collected(patterns, entries, kind) is Ok <==> (forall|k: int|
            0 <= k < patterns.len() && !(#[trigger] patterns[k]).exclude ==> fits_some_file(
                entries,
                patterns[k].segments,
            )) && (forall|path: Seq<char>| #[trigger]
            walks_over(entries, path, EntryKind::Symlink) ==> !selects(patterns, split(path, '/'))),
{
    lemma_unmatched(patterns, entries, patterns.len());
    lemma_first_symlink(patterns, entries, entries.len());
    assert forall|k: int| 0 <= k < patterns.len() implies finds_file(
        #[trigger] patterns[k],
        entries,
        entries.len(),
    ) == fits_some_file(entries, patterns[k].segments) by {
        if finds_file(patterns[k], entries, entries.len()) {
            let e = choose|e: int|
                0 <= e < entries.len() && counts_as(#[trigger] entries[e], EntryKind::File)
                    && path_fits(split(entries[e].path@, '/'), patterns[k].segments);
            assert(walks_over(entries, entries[e].path@, EntryKind::File));
        }
        if fits_some_file(entries, patterns[k].segments) {
            let path = choose|path: Seq<char>| #[trigger]
                walks_over(entries, path, EntryKind::File) && path_fits(
                    split(path, '/'),
                    patterns[k].segments,
                );
            let e = choose|e: int|
                0 <= e < entries.len() && (#[trigger] entries[e]).kind == EntryKind::File
                    && entries[e].path@ == path && !is_hidden(path);
            assert(counts_as(entries[e], EntryKind::File));
        }
    }
    if unmatched(patterns, entries, patterns.len()) is None && first_symlink(
        patterns,
        entries,
        entries.len(),
    ) is None {
        assert forall|path: Seq<char>| #[trigger]
            walks_over(entries, path, EntryKind::Symlink) implies !selects(
            patterns,
            split(path, '/'),
        ) by {
            let e = choose|e: int|
                0 <= e < entries.len() && (#[trigger] entries[e]).kind == EntryKind::Symlink
                    && entries[e].path@ == path && !is_hidden(path);
            assert(counts_as(entries[e], EntryKind::Symlink));
        }
    }
    if let Some(path) = first_symlink(patterns, entries, entries.len()) {
        assert(walks_over(entries, path, EntryKind::Symlink));
    }
    let all = selected_files(patterns, entries, entries.len());
    let files = keys(all);
    assert(files.len() == all.len());
    assert forall|path: Seq<char>| #[trigger] files.contains(path) <==> selects(
        patterns,
        split(path, '/'),
    ) && walks_over(entries, path, EntryKind::File) by {
        law_collected_files_are_the_selected_ones(patterns, entries, path, entries.len());
        if files.contains(path) {
            let e = choose|e: int|
                0 <= e < entries.len() && counts_as(#[trigger] entries[e], EntryKind::File)
                    && entries[e].path@ == path && selects(patterns, split(path, '/'));
            assert(entries[e].kind == EntryKind::File);
        }
        if walks_over(entries, path, EntryKind::File) {
            let e = choose|e: int|
                0 <= e < entries.len() && (#[trigger] entries[e]).kind == EntryKind::File
                    && entries[e].path@ == path && !is_hidden(path);
            assert(counts_as(entries[e], EntryKind::File));
        }
    }
    law_collected_files_are_the_selected_ones(
        patterns,
        entries,
        Seq::empty(),
        entries.len(),
    );
    assert forall|i: int, j: int| 0 <= i < j < files.len() implies text_lt(
        #[trigger] files[i],
        #[trigger] files[j],
    ) by {
        assert(files[i] == all[i].0 && files[j] == all[j].0);
    }
}

/// Whether an entry of a kind stands on `path`, outside the directories that
/// are never walked.
pub open spec fn walks_over(entries: Seq<WalkEntry>, path: Seq<char>, kind: EntryKind) -> bool {
    exists|e: int|
        0 <= e < entries.len() && (#[trigger] entries[e]).kind == kind && entries[e].path@ == path
            && !is_hidden(path)
}

/// Whether some plain file on a walked path fits the segments of a pattern.
pub open spec fn fits_some_file(entries: Seq<WalkEntry>, segments: Seq<Seq<char>>) -> bool {
    exists|path: Seq<char>| #[trigger]
        walks_over(entries, path, EntryKind::File) && path_fits(split(path, '/'), segments)
}

/// The pattern that is reported is the first that should select and matches no
/// file.
proof fn lemma_unmatched(patterns: Seq<PatternView>, entries: Seq<WalkEntry>, count: nat)
    requires
        count <= patterns.len(),
    ensures
        match unmatched(patterns, entries, count) {
            Some(source) => exists|k: int|
                0 <= k < count && !(#[trigger] patterns[k]).exclude && !finds_file(
                    patterns[k],
                    entries,
                    entries.len(),
                ) && patterns[k].source == source && forall|j: int|
                    0 <= j < k && !(#[trigger] patterns[j]).exclude ==> finds_file(
                        patterns[j],
                        entries,
                        entries.len(),
                    ),
            None => forall|k: int|
                0 <= k < count && !(#[trigger] patterns[k]).exclude ==> finds_file(
                    patterns[k],
                    entries,
                    entries.len(),
                ),
        },
    decreases count,
{
    if count > 0 {
        lemma_unmatched(patterns, entries, (count - 1) as nat);
    }
}

proof fn lemma_first_symlink(patterns: Seq<PatternView>, entries: Seq<WalkEntry>, count: nat)
    requires
        count <= entries.len(),
    ensures
        match first_symlink(patterns, entries, count) {
            Some(path) => selects(patterns, split(path, '/')) && (exists|e: int|
                0 <= e < count && (#[trigger] entries[e]).kind == EntryKind::Symlink
                    && entries[e].path@ == path && !is_hidden(path)) && forall|e: int|
                0 <= e < count && counts_as(#[trigger] entries[e], EntryKind::Symlink) && selects(
                    patterns,
                    split(entries[e].path@, '/'),
                ) ==> text_le(path, entries[e].path@),
            None => forall|e: int|
                0 <= e < count && counts_as(#[trigger] entries[e], EntryKind::Symlink) ==> !selects(
                    patterns,
                    split(entries[e].path@, '/'),
                ),
        },
    decreases count,
{
    if count > 0 {
        lemma_first_symlink(patterns, entries, (count - 1) as nat);
        let entry = entries[count - 1];
        if let Some(path) = first_symlink(patterns, entries, (count - 1) as nat) {
            lemma_text_lt_total(entry.path@, path);
            if text_lt(entry.path@, path) {
                assert forall|e: int|
                    0 <= e < count && counts_as(#[trigger] entries[e], EntryKind::Symlink)
                        && selects(patterns, split(entries[e].path@, '/')) implies text_le(
                    entry.path@,
                    entries[e].path@,
                ) || !counts_as(entry, EntryKind::Symlink) || !selects(
                    patterns,
                    split(entry.path@, '/'),
                ) by {
                    if e < count - 1 && path != entries[e].path@ {
                        lemma_text_lt_transitive(entry.path@, path, entries[e].path@);
                    }
                }
            }
        }
    }
}

/// A failed collection names the first pattern, in their order, that matches no
/// file, or else the first selected symbolic link, in the order of the names.
pub proof fn law_a_failed_collection_names_the_first_culprit(
    patterns: Seq<PatternView>,
    entries: Seq<WalkEntry>,
    kind: Seq<char>,
)
    ensures
        collected(patterns, entries, kind) matches Err(fault) ==> {
            ||| exists|k: int|
                0 <= k < patterns.len() && !(#[trigger] patterns[k]).exclude && !finds_file(
                    patterns[k],
                    entries,
                    entries.len(),
                ) && fault == (CacheFault::Invalid {
                    message: kind + " pattern '"@ + patterns[k].source + "' matched no files"@,
                }) && forall|j: int|
                    0 <= j < k && !(#[trigger] patterns[j]).exclude ==> finds_file(
                        patterns[j],
                        entries,
                        entries.len(),
                    )
            ||| exists|path: Seq<char>| #[trigger]
                walks_over(entries, path, EntryKind::Symlink) && selects(patterns, split(path, '/'))
                    && fault == (CacheFault::Invalid {
                    message: kind + " pattern matches unsupported symlink '"@ + path + "'"@,
                }) && forall|e: int|
                    0 <= e < entries.len() && counts_as(#[trigger] entries[e], EntryKind::Symlink)
                        && selects(patterns, split(entries[e].path@, '/')) ==> text_le(
                        path,
                        entries[e].path@,
                    )
        },
{
    lemma_unmatched(patterns, entries, patterns.len());
    lemma_first_symlink(patterns, entries, entries.len());
    if unmatched(patterns, entries, patterns.len()) is None {
        if let Some(path) = first_symlink(patterns, entries, entries.len()) {
            assert(walks_over(entries, path, EntryKind::Symlink));
        }
    }
}

/// What lies in the directory of Git or in that of the tool itself is never walked,
/// however deep it lies, and nothing else is passed over for its name.
pub proof fn law_what_tools_keep_is_hidden(path: Seq<char>)
    ensures
        is_hidden(path) <==> exists|i: int|
            0 <= i < components(path).len() && (#[trigger] components(path)[i] == seq![
                '.',
                'g',
                'i',
                't',
            ] || components(path)[i] == seq!['.', 'm', 'o', 'n', 'o']),
{
    reveal_strlit(".git");
    reveal_strlit(".mono");
    assert(".git"@ =~= seq!['.', 'g', 'i', 't']);
    assert(".mono"@ =~= seq!['.', 'm', 'o', 'n', 'o']);
    let parts = components(path);
    if parts.contains(".git"@) {
        let i = choose|i: int| 0 <= i < parts.len() && parts[i] == ".git"@;
        assert(components(path)[i] == ".git"@);
    }
    if parts.contains(".mono"@) {
        let i = choose|i: int| 0 <= i < parts.len() && parts[i] == ".mono"@;
        assert(components(path)[i] == ".mono"@);
    }
}

} // verus!
