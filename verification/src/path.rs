//! Paths as text with `/` between their components.

use vstd::prelude::*;
use vstd::string::StringExecFns;

use crate::sublist::{is_picked, lemma_picked_more, lemma_picked_none};
use crate::text::{after_last, after_last_text, optional_text};
use crate::text::{chars_of, join, join_texts, lemma_position, lemma_position_bounds, position};
use crate::text::{same, split, split_text, text_of, texts};

verus! {

/// Whether the path starts at the root.
pub open spec fn is_absolute(path: Seq<char>) -> bool {
    path.len() > 0 && path[0] == '/'
}

/// `path` seen from the directory `base`.
pub open spec fn join_path(base: Seq<char>, path: Seq<char>) -> Seq<char> {
    if is_absolute(path) {
        path
    } else if base.len() == 0 || base.last() == '/' {
        base + path
    } else {
        base + "/"@ + path
    }
}

/// The pieces that name something: neither empty nor the current directory.
pub open spec fn named_pieces(pieces: Seq<Seq<char>>) -> Seq<Seq<char>>
    decreases pieces.len(),
{
    if pieces.len() == 0 {
        seq![]
    } else if pieces.last().len() == 0 || pieces.last() == "."@ {
        named_pieces(pieces.drop_last())
    } else {
        named_pieces(pieces.drop_last()).push(pieces.last())
    }
}

/// The components of a path: `/` for the root, `.` only at the start of a
/// relative path, and every other piece that is not empty.
pub open spec fn components(path: Seq<char>) -> Seq<Seq<char>> {
    let pieces = split(path, '/');
    let lead = if is_absolute(path) {
        seq!["/"@]
    } else if pieces[0] == "."@ {
        seq!["."@]
    } else {
        Seq::empty()
    };
    lead + named_pieces(pieces)
}

/// Whether `path` lies below `base`, or is it.
pub open spec fn is_below(path: Seq<char>, base: Seq<char>) -> bool {
    components(base).is_prefix_of(components(path))
}

/// The components of `path` behind those of `base`, as text.
pub open spec fn relative_to(path: Seq<char>, base: Seq<char>) -> Seq<char> {
    join(components(path).skip(components(base).len() as int), "/"@)
}

proof fn lemma_split_around(a: Seq<char>, b: Seq<char>, sep: char)
    ensures
        split(a + seq![sep] + b, sep) == split(a, sep) + split(b, sep),
    decreases a.len(),
{
    let whole = a + seq![sep] + b;
    lemma_position_bounds(a, sep);
    let at = position(a, sep);
    if at == a.len() {
        assert(whole[at] == sep);
        assert forall|j: int| 0 <= j < at implies #[trigger] whole[j] != sep by {
            assert(whole[j] == a[j]);
        }
        lemma_position(whole, sep, at);
        assert(whole.subrange(0, at) =~= a);
        assert(whole.skip(at + 1) =~= b);
        assert(split(whole, sep) =~= split(a, sep) + split(b, sep));
    } else {
        assert(whole[at] == sep);
        assert forall|j: int| 0 <= j < at implies #[trigger] whole[j] != sep by {
            assert(whole[j] == a[j]);
        }
        lemma_position(whole, sep, at);
        let rest = a.skip(at + 1);
        lemma_split_around(rest, b, sep);
        assert(whole.skip(at + 1) =~= rest + seq![sep] + b);
        assert(whole.subrange(0, at) =~= a.subrange(0, at));
        assert(split(whole, sep) =~= split(a, sep) + split(b, sep));
    }
}

proof fn lemma_named_pieces_add(a: Seq<Seq<char>>, b: Seq<Seq<char>>)
    ensures
        named_pieces(a + b) == named_pieces(a) + named_pieces(b),
    decreases b.len(),
{
    if b.len() == 0 {
        assert(a + b =~= a);
        assert(named_pieces(a) + named_pieces(b) =~= named_pieces(a));
    } else {
        assert((a + b).drop_last() =~= a + b.drop_last());
        assert((a + b).last() == b.last());
        lemma_named_pieces_add(a, b.drop_last());
        if !(b.last().len() == 0 || b.last() == "."@) {
            assert((named_pieces(a) + named_pieces(b.drop_last())).push(b.last())
                =~= named_pieces(a) + named_pieces(b.drop_last()).push(b.last()));
        }
    }
}

proof fn lemma_named_pieces_among(pieces: Seq<Seq<char>>, i: int)
    requires
        0 <= i < named_pieces(pieces).len(),
    ensures
        pieces.contains(named_pieces(pieces)[i]),
    decreases pieces.len(),
{
    let rest = pieces.drop_last();
    if i < named_pieces(rest).len() {
        lemma_named_pieces_among(rest, i);
        let k = choose|k: int| 0 <= k < rest.len() && rest[k] == named_pieces(rest)[i];
        assert(pieces[k] == named_pieces(pieces)[i]);
    } else {
        assert(pieces[pieces.len() - 1] == named_pieces(pieces)[i]);
    }
}

/// What lies below an absolute path is absolute.
pub proof fn law_below_an_absolute_path_is_absolute(path: Seq<char>, base: Seq<char>)
    requires
        is_absolute(base),
        is_below(path, base),
    ensures
        is_absolute(path),
{
    reveal_strlit("/");
    reveal_strlit(".");
    assert(components(base)[0] == "/"@);
    assert(components(path)[0] == components(base)[0]) by {
        let own = components(base);
        assert(components(path).subrange(0, own.len() as int)[0] == own[0]);
    }
    if !is_absolute(path) {
        let pieces = split(path, '/');
        crate::text::lemma_split_nonempty(path, '/');
        assert("/"@.contains('/')) by {
            assert("/"@[0] == '/');
        }
        if pieces[0] == "."@ {
            assert(components(path)[0] == "."@);
            assert("."@[0] == '.');
        } else {
            assert(components(path) =~= named_pieces(pieces));
            lemma_named_pieces_among(pieces, 0);
            let k = choose|k: int| 0 <= k < pieces.len() && pieces[k] == "/"@;
            crate::text::lemma_split_pieces(path, '/', k);
        }
    }
}

/// A relative path seen from a directory leads below that directory.
pub proof fn law_joined_path_is_below(base: Seq<char>, path: Seq<char>)
    requires
        !is_absolute(path),
    ensures
        is_below(join_path(base, path), base),
{
    reveal_strlit("/");
    reveal_with_fuel(named_pieces, 2);
    let whole = join_path(base, path);
    if base.len() == 0 {
        assert(split(base, '/') =~= seq![base]);
        assert(seq![base].drop_last() =~= Seq::<Seq<char>>::empty());
        assert(named_pieces(seq![base]) =~= Seq::<Seq<char>>::empty());
        reveal_strlit(".");
        assert(components(base) =~= Seq::<Seq<char>>::empty());
    } else {
        let stem = if base.last() == '/' {
            base.drop_last()
        } else {
            base
        };
        assert("/"@ =~= seq!['/']);
        assert(whole =~= stem + seq!['/'] + path);
        lemma_split_around(stem, path, '/');
        lemma_named_pieces_add(split(stem, '/'), split(path, '/'));
        crate::text::lemma_split_nonempty(stem, '/');
        if base.last() == '/' {
            let none: Seq<char> = Seq::empty();
            assert(base =~= stem + seq!['/'] + none);
            lemma_split_around(stem, none, '/');
            assert(split(none, '/') =~= seq![none]);
            lemma_named_pieces_add(split(stem, '/'), seq![none]);
            assert(seq![none].drop_last() =~= Seq::<Seq<char>>::empty());
            assert(named_pieces(seq![none]) =~= Seq::<Seq<char>>::empty());
        }
        assert(split(whole, '/')[0] == split(stem, '/')[0]);
        assert(split(base, '/')[0] == split(stem, '/')[0]);
        assert(named_pieces(split(base, '/')) =~= named_pieces(split(stem, '/')));
        assert(is_absolute(whole) == is_absolute(base)) by {
            assert(whole[0] == base[0]);
        }
        assert(components(whole) =~= components(base) + named_pieces(split(path, '/')));
    }
}

/// Whether the path starts at the root.
pub fn absolute(path: &str) -> (r: bool)
    ensures
        r == is_absolute(path@),
{
    let chars = chars_of(path);
    chars.len() > 0 && chars[0] == '/'
}

/// `path` seen from the directory `base`.
pub fn join_paths(base: &str, path: &str) -> (r: String)
    ensures
        r@ == join_path(base@, path@),
{
    if absolute(path) {
        return path.to_owned();
    }
    let chars = chars_of(base);
    let mut out = base.to_owned();
    if chars.len() > 0 && chars[chars.len() - 1] != '/' {
        out.append("/");
    }
    out.append(path);
    out
}

/// The components of a path.
pub fn path_components(path: &str) -> (r: Vec<String>)
    ensures
        texts(r@) == components(path@),
{
    let pieces = split_text(path, '/');
    let mut out: Vec<String> = Vec::new();
    let ghost all = split(path@, '/');
    if absolute(path) {
        out.push("/".to_owned());
        assert(texts(out@) =~= seq!["/"@]);
    } else if same(pieces[0].as_str(), ".") {
        assert(all[0] == pieces[0]@);
        out.push(".".to_owned());
        assert(texts(out@) =~= seq!["."@]);
    } else {
        assert(all[0] == pieces[0]@);
        assert(texts(out@) =~= Seq::<Seq<char>>::empty());
    }
    let ghost lead = texts(out@);
    let mut i: usize = 0;
    assert(lead + named_pieces(all.take(0)) =~= lead);
    while i < pieces.len()
        invariant
            i <= pieces@.len(),
            texts(pieces@) == all,
            texts(out@) == lead + named_pieces(all.take(i as int)),
        decreases pieces.len() - i,
    {
        let ghost next = all.take(i as int + 1);
        assert(next.drop_last() =~= all.take(i as int));
        assert(next.last() == pieces[i as int]@);
        let ghost before = texts(out@);
        if !pieces[i].as_str().is_empty() && !same(pieces[i].as_str(), ".") {
            out.push(pieces[i].clone());
            assert(texts(out@) =~= before.push(pieces[i as int]@));
            assert(texts(out@) =~= lead + named_pieces(next));
        }
        i += 1;
    }
    assert(all.take(i as int) =~= all);
    out
}

/// Whether `path` lies below `base`, or is it.
pub fn below(path: &str, base: &str) -> (r: bool)
    ensures
        r == is_below(path@, base@),
{
    let outer = path_components(base);
    let inner = path_components(path);
    let ghost a = components(base@);
    let ghost b = components(path@);
    if outer.len() > inner.len() {
        return false;
    }
    let mut i: usize = 0;
    while i < outer.len()
        invariant
            i <= outer@.len() <= inner@.len(),
            a == components(base@),
            b == components(path@),
            texts(outer@) == a,
            texts(inner@) == b,
            forall|j: int| 0 <= j < i ==> a[j] == b[j],
        decreases outer.len() - i,
    {
        assert(a[i as int] == outer[i as int]@ && b[i as int] == inner[i as int]@);
        if !same(outer[i].as_str(), inner[i].as_str()) {
            assert(b.subrange(0, a.len() as int)[i as int] != a[i as int]);
            return false;
        }
        i += 1;
    }
    assert(b.subrange(0, a.len() as int) =~= a);
    true
}

/// The part of `path` behind `base`, where `path` lies below it.
pub fn strip_base(path: &str, base: &str) -> (r: Option<String>)
    ensures
        match r {
            Some(rest) => is_below(path@, base@) && rest@ == relative_to(path@, base@),
            None => !is_below(path@, base@),
        },
{
    if !below(path, base) {
        return None;
    }
    let outer = path_components(base);
    let inner = path_components(path);
    let ghost a = components(base@);
    let ghost b = components(path@);
    assert(outer@.len() == a.len());
    let mut rest: Vec<String> = Vec::new();
    let mut i: usize = outer.len();
    while i < inner.len()
        invariant
            outer@.len() <= i <= inner@.len(),
            outer@.len() == a.len(),
            texts(inner@) == b,
            texts(rest@) == b.subrange(a.len() as int, i as int),
        decreases inner.len() - i,
    {
        let ghost before = texts(rest@);
        rest.push(inner[i].clone());
        assert(texts(rest@) =~= before.push(inner[i as int]@));
        assert(b[i as int] == inner[i as int]@);
        i += 1;
        assert(texts(rest@) =~= b.subrange(a.len() as int, i as int));
    }
    assert(inner@.len() == b.len());
    assert(texts(rest@) =~= b.skip(a.len() as int));
    Some(join_texts(&rest, "/"))
}

/// Whether the path has a component `..`.
pub open spec fn has_parent(path: Seq<char>) -> bool {
    components(path).contains(".."@)
}

/// Whether the path has a component `..`.
pub fn climbs(path: &str) -> (r: bool)
    ensures
        r == has_parent(path@),
{
    crate::text::holds(&path_components(path), "..")
}

/// The path in normal form: its components with `/` between them.
pub fn relative_path(path: &str) -> (r: String)
    ensures
        r@ == join(components(path@), "/"@),
{
    join_texts(&path_components(path), "/")
}

/// `path` without the separators and current directories at its end.
pub open spec fn trimmed(path: Seq<char>) -> Seq<char>
    decreases path.len(),
{
    if path.len() > 1 && path.last() == '/' {
        trimmed(path.drop_last())
    } else if path.len() > 1 && path.last() == '.' && path[path.len() - 2] == '/' {
        trimmed(path.drop_last())
    } else {
        path
    }
}

/// The path without its last component, where it has one to lose.
pub open spec fn parent(path: Seq<char>) -> Option<Seq<char>> {
    let all = trimmed(path);
    if all.len() == 0 || all == "/"@ {
        None
    } else {
        Some(trimmed(all.take(all.len() - after_last(all, '/').len())))
    }
}

/// The last component of a path, where it names something.
pub open spec fn file_name(path: Seq<char>) -> Option<Seq<char>> {
    let name = after_last(trimmed(path), '/');
    if name.len() == 0 || name == "."@ || name == ".."@ {
        None
    } else {
        Some(name)
    }
}

proof fn lemma_trimmed(path: Seq<char>)
    ensures
        trimmed(path).is_prefix_of(path),
        trimmed(path).len() > 1 ==> trimmed(path).last() != '/',
        path.len() > 0 ==> trimmed(path).len() > 0,
    decreases path.len(),
{
    if path.len() > 1 && (path.last() == '/' || path.last() == '.' && path[path.len() - 2]
        == '/') {
        lemma_trimmed(path.drop_last());
        assert(trimmed(path) =~= path.subrange(0, trimmed(path).len() as int));
    } else {
        assert(path =~= path.subrange(0, path.len() as int));
    }
}

pub proof fn lemma_after_last(s: Seq<char>, c: char)
    ensures
        after_last(s, c).len() <= s.len(),
        s.len() > 0 && s.last() != c ==> after_last(s, c).len() > 0,
    decreases s.len(),
{
    if s.len() > 0 && s.last() != c {
        lemma_after_last(s.drop_last(), c);
    }
}

/// A parent is shorter than what it is the parent of.
pub proof fn lemma_parent_shorter(path: Seq<char>)
    ensures
        parent(path) is Some ==> parent(path)->0.len() < path.len(),
{
    reveal_strlit("/");
    let all = trimmed(path);
    lemma_trimmed(path);
    if parent(path) is Some {
        if all.len() == 1 && all[0] == '/' {
            assert(all =~= "/"@);
        }
        lemma_after_last(all, '/');
        let head = all.take(all.len() - after_last(all, '/').len());
        lemma_trimmed(head);
        assert(head.len() < all.len());
    }
}

/// A directory and everything above it, from the nearest up.
pub open spec fn ancestors(dir: Seq<char>) -> Seq<Seq<char>>
    decreases dir.len(),
{
    proof {
        lemma_parent_shorter(dir);
    }
    match parent(dir) {
        None => seq![dir],
        Some(above) => seq![dir] + ancestors(above),
    }
}

fn trim_path(path: &str) -> (r: String)
    ensures
        r@ == trimmed(path@),
{
    let chars = chars_of(path);
    let mut end: usize = chars.len();
    assert(path@.take(end as int) =~= path@);
    while end > 1 && (chars[end - 1] == '/' || chars[end - 1] == '.' && chars[end - 2] == '/')
        invariant
            end <= chars@.len(),
            chars@ == path@,
            trimmed(path@.take(end as int)) == trimmed(path@),
        decreases end,
    {
        let ghost now = path@.take(end as int);
        assert(now.drop_last() =~= path@.take(end - 1));
        end -= 1;
    }
    let out = text_of(&chars, 0, end);
    assert(out@ =~= path@.take(end as int));
    out
}

/// The path without its last component.
pub fn parent_of(path: &str) -> (r: Option<String>)
    ensures
        optional_text(r) == parent(path@),
{
    let all = trim_path(path);
    if all.as_str().is_empty() || same(all.as_str(), "/") {
        return None;
    }
    let chars = chars_of(all.as_str());
    let name = chars_of(after_last_text(all.as_str(), '/').as_str());
    proof {
        lemma_after_last(all@, '/');
    }
    let count: usize = chars.len();
    let cut: usize = count - name.len();
    let head = text_of(&chars, 0, cut);
    assert(head@ =~= all@.take(all@.len() - after_last(all@, '/').len()));
    Some(trim_path(head.as_str()))
}

/// The last component of a path.
pub fn file_name_of(path: &str) -> (r: Option<String>)
    ensures
        optional_text(r) == file_name(path@),
{
    let name = after_last_text(trim_path(path).as_str(), '/');
    if name.as_str().is_empty() || same(name.as_str(), ".") || same(name.as_str(), "..") {
        None
    } else {
        Some(name)
    }
}

/// A directory and everything above it, from the nearest up.
pub fn ancestors_of(dir: &str) -> (r: Vec<String>)
    ensures
        texts(r@) == ancestors(dir@),
{
    let mut out: Vec<String> = Vec::new();
    let mut current = dir.to_owned();
    assert(texts(out@) + ancestors(current@) =~= ancestors(dir@));
    loop
        invariant_except_break
            texts(out@) + ancestors(current@) == ancestors(dir@),
        ensures
            texts(out@) == ancestors(dir@),
        decreases current@.len(),
    {
        proof {
            lemma_parent_shorter(current@);
        }
        let above = parent_of(current.as_str());
        let ghost before = texts(out@);
        let ghost now = current@;
        out.push(current);
        assert(texts(out@) =~= before.push(now));
        match above {
            None => {
                assert(texts(out@) =~= before + ancestors(now));
                break;
            },
            Some(next) => {
                assert(texts(out@) + ancestors(next@) =~= before + ancestors(now));
                current = next;
            },
        }
    }
    out
}

/// The pieces of a path that name something are all but the empty ones and the
/// current directories, in their order.
pub proof fn law_named_pieces_are_neither_empty_nor_the_current_directory(pieces: Seq<Seq<char>>)
    ensures
        is_picked(named_pieces(pieces), pieces, |piece: Seq<char>| piece.len() > 0 && piece != "."@),
    decreases pieces.len(),
{
    let keep = |piece: Seq<char>| piece.len() > 0 && piece != "."@;
    if pieces.len() == 0 {
        lemma_picked_none(keep);
        assert(pieces =~= Seq::empty());
    } else {
        law_named_pieces_are_neither_empty_nor_the_current_directory(pieces.drop_last());
        lemma_picked_more(named_pieces(pieces.drop_last()), pieces, keep);
    }
}

/// A relative path seen from a directory has the components of the directory
/// and then its own, which is what remains when the directory is taken away; an
/// absolute path stays as it is.
pub proof fn law_a_joined_path_has_the_components_of_both(base: Seq<char>, path: Seq<char>)
    requires
        base.len() > 0,
    ensures
        is_absolute(path) ==> join_path(base, path) == path,
        !is_absolute(path) ==> components(join_path(base, path)) == components(base) + named_pieces(
            split(path, '/'),
        ),
        !is_absolute(path) ==> relative_to(join_path(base, path), base) == join(
            named_pieces(split(path, '/')),
            seq!['/'],
        ),
{
    if !is_absolute(path) {
        reveal_strlit("/");
        reveal_with_fuel(named_pieces, 2);
        let whole = join_path(base, path);
        let stem = if base.last() == '/' {
            base.drop_last()
        } else {
            base
        };
        assert("/"@ =~= seq!['/']);
        assert(whole =~= stem + seq!['/'] + path);
        lemma_split_around(stem, path, '/');
        lemma_named_pieces_add(split(stem, '/'), split(path, '/'));
        crate::text::lemma_split_nonempty(stem, '/');
        if base.last() == '/' {
            let none: Seq<char> = Seq::empty();
            assert(base =~= stem + seq!['/'] + none);
            lemma_split_around(stem, none, '/');
            assert(split(none, '/') =~= seq![none]);
            lemma_named_pieces_add(split(stem, '/'), seq![none]);
            assert(seq![none].drop_last() =~= Seq::<Seq<char>>::empty());
            assert(named_pieces(seq![none]) =~= Seq::<Seq<char>>::empty());
        }
        assert(split(whole, '/')[0] == split(stem, '/')[0]);
        assert(split(base, '/')[0] == split(stem, '/')[0]);
        assert(named_pieces(split(base, '/')) =~= named_pieces(split(stem, '/')));
        assert(whole[0] == base[0]);
        assert(components(whole) =~= components(base) + named_pieces(split(path, '/')));
        assert(components(whole).skip(components(base).len() as int) =~= named_pieces(
            split(path, '/'),
        ));
    }
}

/// What lies below a directory that lies below another lies below that one too,
/// and every path lies below itself.
pub proof fn law_below_is_an_order(a: Seq<char>, b: Seq<char>, c: Seq<char>)
    ensures
        is_below(a, a),
        is_below(a, b) && is_below(b, c) ==> is_below(a, c),
{
    let x = components(a);
    let y = components(b);
    let z = components(c);
    assert(x.subrange(0, x.len() as int) =~= x);
    if is_below(a, b) && is_below(b, c) {
        assert(z =~= x.subrange(0, z.len() as int)) by {
            assert forall|i: int| 0 <= i < z.len() implies z[i] == x.subrange(
                0,
                z.len() as int,
            )[i] by {
                assert(z[i] == y.subrange(0, z.len() as int)[i]);
                assert(y[i] == x.subrange(0, y.len() as int)[i]);
            }
        }
    }
}

/// A name in a directory is the last component of its path, and the directory
/// is the parent.
pub proof fn law_a_file_is_named_in_its_directory(dir: Seq<char>, name: Seq<char>)
    requires
        dir.len() > 0,
        dir.last() != '/' || dir.len() == 1,
        name.len() > 0,
        !name.contains('/'),
        name != "."@,
        name != ".."@,
    ensures
        file_name(join_path(dir, name)) == Some(name),
        parent(join_path(dir, name)) == Some(trimmed(dir)),
{
    reveal_strlit("/");
    reveal_strlit(".");
    assert("/"@ =~= seq!['/']);
    assert(name.contains(name[0]));
    assert(name.contains(name.last()));
    let whole = join_path(dir, name);
    let stem = whole.take(whole.len() - name.len());
    assert(whole =~= stem + name);
    assert(stem.last() == '/');
    assert(whole.last() == name.last());
    if name.last() == '.' && whole[whole.len() - 2] == '/' {
        if name.len() > 1 {
            assert(whole[whole.len() - 2] == name[name.len() - 2]);
            assert(name.contains(name[name.len() - 2]));
        } else {
            assert(name =~= "."@);
        }
    }
    assert(trimmed(whole) == whole);
    lemma_last_name(stem, name);
    assert(trimmed(stem) == trimmed(dir)) by {
        if dir.last() == '/' {
            assert(stem =~= dir);
        } else {
            assert(stem.drop_last() =~= dir);
        }
    }
    assert(whole.len() > 1);
}

proof fn lemma_last_name(stem: Seq<char>, name: Seq<char>)
    requires
        stem.len() > 0,
        stem.last() == '/',
        !name.contains('/'),
    ensures
        after_last(stem + name, '/') == name,
    decreases name.len(),
{
    let whole = stem + name;
    if name.len() == 0 {
        assert(whole =~= stem);
        assert(after_last(whole, '/') =~= name);
    } else {
        assert(name.contains(name.last()));
        let front = name.drop_last();
        assert(!front.contains('/')) by {
            if front.contains('/') {
                let i = choose|i: int| 0 <= i < front.len() && front[i] == '/';
                assert(name[i] == '/');
            }
        }
        lemma_last_name(stem, front);
        assert(whole.drop_last() =~= stem + front);
        assert(after_last(whole, '/') =~= name);
    }
}

/// The ancestors of a directory begin with it; each is followed by its parent,
/// up to one that has none.
pub proof fn law_ancestors_are_parents_of_parents(dir: Seq<char>)
    ensures
        ancestors(dir).len() > 0,
        ancestors(dir)[0] == dir,
        forall|i: int|
            0 <= i < ancestors(dir).len() - 1 ==> parent(#[trigger] ancestors(dir)[i]) == Some(
                ancestors(dir)[i + 1],
            ),
        parent(ancestors(dir).last()) is None,
    decreases dir.len(),
{
    lemma_parent_shorter(dir);
    if let Some(above) = parent(dir) {
        law_ancestors_are_parents_of_parents(above);
        let all = ancestors(dir);
        let rest = ancestors(above);
        assert(all =~= seq![dir] + rest);
        assert forall|i: int| 0 <= i < all.len() - 1 implies parent(#[trigger] all[i]) == Some(
            all[i + 1],
        ) by {
            if i > 0 {
                assert(all[i] == rest[i - 1]);
                assert(all[i + 1] == rest[i]);
            }
        }
        assert(all.last() == rest.last());
    }
}

} // verus!
