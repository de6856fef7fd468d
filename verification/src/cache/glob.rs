//! Matching with wildcards: what a match is, and why greedy backtracking
//! finds one.

use vstd::prelude::*;

verus! {

/// A matching problem: `n` items against a pattern of `m` items.
pub struct Glob {
    /// Whether item `i` matches the ordinary pattern item `j`.
    pub fits: spec_fn(int, int) -> bool,
    /// Whether pattern item `j` matches any run of items.
    pub star: spec_fn(int) -> bool,
    pub n: int,
    pub m: int,
    /// Whether the items may end before the pattern does.
    pub prefix: bool,
}

impl Glob {
    /// Whether the pattern from `j` on matches the items from `i` on.
    pub open spec fn matches_from(self, i: int, j: int) -> bool
        decreases self.n - i, self.m - j,
    {
        if i >= self.n {
            self.prefix || forall|k: int| j <= k < self.m ==> #[trigger] (self.star)(k)
        } else if j >= self.m {
            false
        } else if (self.star)(j) {
            self.matches_from(i, j + 1) || self.matches_from(i + 1, j)
        } else {
            (self.fits)(i, j) && self.matches_from(i + 1, j + 1)
        }
    }

    /// Whether the pattern from `j` on matches the items from some place not
    /// before `i` on.
    pub open spec fn matches_later(self, i: int, j: int) -> bool
        decreases self.n + 1 - i,
    {
        i <= self.n && (self.matches_from(i, j) || self.matches_later(i + 1, j))
    }

    /// What a greedy search knows at `(i, j)` about the outcome, where `mark`
    /// is the pattern item behind the last star and `from` the place at which
    /// the rest of the pattern was last tried.
    pub open spec fn knows(self, i: int, j: int, mark: Option<int>, from: int) -> bool {
        &&& 0 <= i <= self.n
        &&& 0 <= j <= self.m
        &&& match mark {
            None => self.matches_from(0, 0) == self.matches_from(i, j),
            Some(a) => {
                &&& 0 < a <= j
                &&& 0 <= from <= i
                &&& i - from == j - a
                &&& forall|k: int| a <= k < j ==> !#[trigger] (self.star)(k)
                &&& self.matches_from(0, 0) == self.matches_later(from, a)
                &&& self.matches_from(from, a) == self.matches_from(i, j)
            },
        }
    }
}

/// A star matches exactly where the rest of the pattern matches later on.
proof fn lemma_star(g: Glob, i: int, j: int)
    requires
        0 <= i <= g.n,
        0 <= j < g.m,
        (g.star)(j),
    ensures
        g.matches_from(i, j) == g.matches_later(i, j + 1),
    decreases g.n - i,
{
    if i < g.n {
        lemma_star(g, i + 1, j);
    } else {
        assert(g.matches_from(i, j) == g.matches_from(i, j + 1)) by {
            if forall|k: int| j + 1 <= k < g.m ==> #[trigger] (g.star)(k) {
                assert forall|k: int| j <= k < g.m implies #[trigger] (g.star)(k) by {}
            }
        }
        assert(!g.matches_later(i + 1, j + 1));
    }
}

/// A match at a star is also a match from any earlier place.
proof fn lemma_star_reaches(g: Glob, i: int, k: int, j: int)
    requires
        0 <= i <= k <= g.n,
        0 <= j < g.m,
        (g.star)(j),
        g.matches_from(k, j),
    ensures
        g.matches_from(i, j),
    decreases k - i,
{
    if i < k {
        lemma_star_reaches(g, i + 1, k, j);
    }
}

/// Ordinary pattern items each use up one item.
proof fn lemma_run(g: Glob, i: int, a: int, j: int)
    requires
        0 <= i <= g.n,
        0 <= a <= j <= g.m,
        forall|k: int| a <= k < j ==> !#[trigger] (g.star)(k),
        g.matches_from(i, a),
        !g.prefix,
    ensures
        i + (j - a) <= g.n,
        g.matches_from(i + (j - a), j),
    decreases j - a,
{
    if a < j {
        assert(!(g.star)(a));
        if i >= g.n {
            assert((g.star)(a));
        }
        lemma_run(g, i + 1, a + 1, j);
    }
}

proof fn lemma_later_run(g: Glob, i: int, a: int, j: int) -> (k: int)
    requires
        0 <= i <= g.n,
        0 <= a <= j <= g.m,
        forall|k: int| a <= k < j ==> !#[trigger] (g.star)(k),
        g.matches_later(i, a),
        !g.prefix,
    ensures
        i <= k,
        k + (j - a) <= g.n,
        g.matches_from(k + (j - a), j),
    decreases g.n - i,
{
    if g.matches_from(i, a) {
        lemma_run(g, i, a, j);
        i
    } else {
        assert(g.matches_later(i + 1, a));
        assert(i + 1 <= g.n);
        lemma_later_run(g, i + 1, a, j)
    }
}

/// Where the items may end early, everything matches at a star.
proof fn lemma_prefix_star(g: Glob, i: int, j: int)
    requires
        0 <= i <= g.n,
        0 <= j < g.m,
        (g.star)(j),
        g.prefix,
    ensures
        g.matches_from(i, j),
    decreases g.n - i,
{
    if i < g.n {
        lemma_prefix_star(g, i + 1, j);
    }
}

/// The search may start at the beginning.
pub proof fn lemma_start(g: Glob)
    requires
        0 <= g.n,
        0 <= g.m,
    ensures
        g.knows(0, 0, None, 0),
{
}

/// The search may pass an item that fits.
pub proof fn lemma_advance(g: Glob, i: int, j: int, mark: Option<int>, from: int)
    requires
        g.knows(i, j, mark, from),
        i < g.n,
        j < g.m,
        !(g.star)(j),
        (g.fits)(i, j),
    ensures
        g.knows(i + 1, j + 1, mark, from),
{
}

/// The search may forget about earlier stars when it meets a new one.
pub proof fn lemma_new_star(g: Glob, i: int, j: int, mark: Option<int>, from: int)
    requires
        g.knows(i, j, mark, from),
        j < g.m,
        (g.star)(j),
    ensures
        g.knows(i, j + 1, Some(j + 1), i),
{
    lemma_star(g, i, j);
    if let Some(a) = mark {
        if g.prefix {
            lemma_prefix_star(g, i, j);
        } else if g.matches_later(from, a) {
            let k = lemma_later_run(g, from, a, j);
            lemma_star_reaches(g, i, k + (j - a), j);
        }
    }
}

/// Where an item does not fit, the search goes back to the last star.
pub proof fn lemma_backtrack(g: Glob, i: int, j: int, a: int, from: int)
    requires
        g.knows(i, j, Some(a), from),
        i < g.n,
        j < g.m ==> !(g.star)(j) && !(g.fits)(i, j),
    ensures
        g.knows(from + 1, a, Some(a), from + 1),
{
    assert(!g.matches_from(i, j));
}

/// Without a star to go back to, an item that does not fit ends the search.
pub proof fn lemma_failure(g: Glob, i: int, j: int)
    requires
        g.knows(i, j, None, 0),
        i < g.n,
        j < g.m ==> !(g.star)(j) && !(g.fits)(i, j),
    ensures
        !g.matches_from(0, 0),
{
}

/// Once all items are used up, the rest of the pattern decides.
pub proof fn lemma_finish(g: Glob, j: int, mark: Option<int>, from: int)
    requires
        g.knows(g.n, j, mark, from),
    ensures
        g.matches_from(0, 0) == (g.prefix || forall|k: int|
            j <= k < g.m ==> #[trigger] (g.star)(k)),
{
    if let Some(a) = mark {
        if !g.prefix && g.matches_later(from, a) {
            let k = lemma_later_run(g, from, a, j);
            assert(k == from);
        }
    }
}

/// Nothing below a place is lost by looking at the place alone: where a longer
/// list of items matches, its beginning matches as a prefix.
pub proof fn lemma_prefix_of_match(whole: Glob, part: Glob, i: int, j: int)
    requires
        0 <= i <= part.n <= whole.n,
        0 <= j <= part.m,
        whole.m == part.m,
        part.prefix,
        !whole.prefix,
        forall|k: int| 0 <= k < part.m ==> #[trigger] (part.star)(k) == (whole.star)(k),
        forall|a: int, b: int|
            0 <= a < part.n && 0 <= b < part.m ==> #[trigger] (part.fits)(a, b) == (whole.fits)(
                a,
                b,
            ),
        whole.matches_from(i, j),
    ensures
        part.matches_from(i, j),
    decreases part.n - i, part.m - j,
{
    if i < part.n && j < part.m {
        assert((part.star)(j) == (whole.star)(j));
        assert((part.fits)(i, j) == (whole.fits)(i, j));
        if (whole.star)(j) {
            if whole.matches_from(i, j + 1) {
                lemma_prefix_of_match(whole, part, i, j + 1);
            } else {
                lemma_prefix_of_match(whole, part, i + 1, j);
            }
        } else {
            lemma_prefix_of_match(whole, part, i + 1, j + 1);
        }
    }
}

} // verus!
