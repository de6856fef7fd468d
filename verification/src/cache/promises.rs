//! What the cache promises of its patterns, its entries and its digests.

use vstd::prelude::*;

use crate::cache::entry::{
    described, entry_metadata, escaping_output, found, output_restores, published, CachedOutputView,
    EntryObservation, HitView, OutputObservation, Publication, RestoreView,
};
use crate::cache::error::CacheFault;
use crate::cache::glob::Glob;
use crate::cache::hash::{
    escaping_path, hex, hex_digit, is_safe_path, sha256_of, step_paths, symlink_on_way,
    symlink_problem,
};
use crate::cache::key::{ReadFileView, CACHE_FORMAT_VERSION};
use crate::cache::pattern::{
    directory_fits, law_a_pattern_matches_itself, path_fits, path_glob, segment_fits, segment_glob,
};
use crate::io::{IoError, IoErrorKind};
use crate::path::{components, is_below, join_path};

verus! {

/// A pattern without stars matches items one by one: there are as many, and
/// each fits the one at its place.
pub proof fn law_without_stars_items_match_one_by_one(glob: Glob, i: int, j: int)
    requires
        !glob.prefix,
        0 <= i <= glob.n,
        0 <= j <= glob.m,
        forall|k: int| j <= k < glob.m ==> !#[trigger] (glob.star)(k),
    ensures
        glob.matches_from(i, j) <==> glob.n - i == glob.m - j && forall|k: int|
            0 <= k < glob.n - i ==> #[trigger] (glob.fits)(i + k, j + k),
    decreases glob.n - i, glob.m - j,
{
    if i < glob.n && j < glob.m {
        law_without_stars_items_match_one_by_one(glob, i + 1, j + 1);
        if (glob.fits)(i, j) && glob.matches_from(i + 1, j + 1) {
            assert forall|k: int| 0 <= k < glob.n - i implies #[trigger] (glob.fits)(
                i + k,
                j + k,
            ) by {
                if k > 0 {
                    assert((glob.fits)((i + 1) + (k - 1), (j + 1) + (k - 1)));
                }
            }
        }
        if glob.n - i == glob.m - j && forall|k: int|
            0 <= k < glob.n - i ==> #[trigger] (glob.fits)(i + k, j + k) {
            assert((glob.fits)(i + 0, j + 0));
            assert forall|k: int| 0 <= k < glob.n - (i + 1) implies #[trigger] (glob.fits)(
                (i + 1) + k,
                (j + 1) + k,
            ) by {
                assert((glob.fits)(i + (k + 1), j + (k + 1)));
            }
        }
    } else if i >= glob.n && j < glob.m {
        assert(!(glob.star)(j));
    }
}

/// A star matches any run of items, none among them: what follows the star
/// matches behind some run.
pub proof fn law_a_star_matches_any_run(glob: Glob, i: int, j: int)
    requires
        !glob.prefix,
        0 <= i <= glob.n,
        0 <= j < glob.m,
        (glob.star)(j),
    ensures
        glob.matches_from(i, j) <==> exists|k: int|
            i <= k <= glob.n && #[trigger] glob.matches_from(k, j + 1),
    decreases glob.n - i,
{
    if i < glob.n {
        law_a_star_matches_any_run(glob, i + 1, j);
        assert(glob.matches_from(i, j) == (glob.matches_from(i, j + 1) || glob.matches_from(
            i + 1,
            j,
        )));
        if glob.matches_from(i + 1, j) {
            let k = choose|k: int| i + 1 <= k <= glob.n && #[trigger] glob.matches_from(k, j + 1);
            assert(glob.matches_from(k, j + 1));
        }
        if exists|k: int| i <= k <= glob.n && #[trigger] glob.matches_from(k, j + 1) {
            let k = choose|k: int| i <= k <= glob.n && #[trigger] glob.matches_from(k, j + 1);
            if k > i {
                assert(glob.matches_from(i + 1, j));
            }
        }
    } else {
        if glob.matches_from(i, j + 1) {
            assert forall|k: int| j <= k < glob.m implies #[trigger] (glob.star)(k) by {
                if k > j {
                    assert((glob.star)(k));
                }
            }
        }
        assert(glob.matches_from(i, j) == glob.matches_from(i, j + 1));
        if exists|k: int| i <= k <= glob.n && #[trigger] glob.matches_from(k, j + 1) {
            let k = choose|k: int| i <= k <= glob.n && #[trigger] glob.matches_from(k, j + 1);
            assert(k == i);
        }
    }
}

/// A path fits a pattern without `**` exactly where it has as many segments and
/// each fits the one at its place.
pub proof fn law_plain_patterns_match_segment_by_segment(
    path: Seq<Seq<char>>,
    pattern: Seq<Seq<char>>,
)
    requires
        forall|k: int| 0 <= k < pattern.len() ==> #[trigger] pattern[k] != "**"@,
    ensures
        path_fits(path, pattern) <==> path.len() == pattern.len() && forall|k: int|
            0 <= k < path.len() ==> segment_fits(#[trigger] path[k], pattern[k]),
{
    let glob = path_glob(path, pattern, false);
    law_without_stars_items_match_one_by_one(glob, 0, 0);
    if path_fits(path, pattern) {
        assert forall|k: int| 0 <= k < path.len() implies segment_fits(
            #[trigger] path[k],
            pattern[k],
        ) by {
            assert((glob.fits)(0 + k, 0 + k));
        }
    }
}

/// A segment without wildcards in the pattern fits exactly itself.
pub proof fn law_a_plain_segment_fits_itself_alone(value: Seq<char>, pattern: Seq<char>)
    requires
        !value.contains('*'),
        !pattern.contains('*'),
    ensures
        segment_fits(value, pattern) <==> value == pattern,
{
    crate::cache::pattern::law_star_matches_any_run(value, pattern);
    let glob = segment_glob(value, pattern);
    assert forall|k: int| 0 <= k < glob.m implies !#[trigger] (glob.star)(k) by {
        assert(pattern.contains(pattern[k]));
    }
    law_without_stars_items_match_one_by_one(glob, 0, 0);
    if value == pattern {
        law_a_pattern_matches_itself(pattern);
    }
    if segment_fits(value, pattern) {
        assert forall|k: int| 0 <= k < value.len() implies value[k] == pattern[k] by {
            assert((glob.fits)(0 + k, 0 + k));
        }
        assert(value =~= pattern);
    }
}

/// A directory is walked exactly where some path below it, or the directory
/// itself, can fit the pattern.
pub proof fn law_a_walked_directory_can_hold_a_match(
    directory: Seq<Seq<char>>,
    pattern: Seq<Seq<char>>,
)
    ensures
        directory_fits(directory, pattern) <==> exists|rest: Seq<Seq<char>>| #[trigger]
            path_fits(directory + rest, pattern),
{
    if directory_fits(directory, pattern) {
        lemma_can_be_completed(directory, pattern, 0, 0);
        let rest = choose|rest: Seq<Seq<char>>|
            #![trigger directory + rest]
            path_glob(directory + rest, pattern, false).matches_from(0, 0);
        assert(path_fits(directory + rest, pattern));
    }
    if exists|rest: Seq<Seq<char>>| #[trigger] path_fits(directory + rest, pattern) {
        let rest = choose|rest: Seq<Seq<char>>| #[trigger] path_fits(directory + rest, pattern);
        crate::cache::pattern::law_pruning_loses_nothing(directory, rest, pattern);
    }
}

/// What is left of a pattern completes a path that has matched so far.
proof fn lemma_can_be_completed(
    directory: Seq<Seq<char>>,
    pattern: Seq<Seq<char>>,
    i: int,
    j: int,
)
    requires
        0 <= i <= directory.len(),
        0 <= j <= pattern.len(),
        path_glob(directory, pattern, true).matches_from(i, j),
    ensures
        exists|rest: Seq<Seq<char>>|
            #![trigger directory + rest]
            path_glob(directory + rest, pattern, false).matches_from(i, j),
    decreases directory.len() - i, pattern.len() - j,
{
    if i >= directory.len() {
        let rest = pattern.skip(j);
        lemma_rest_matches(directory, pattern, rest, i, j);
        let whole = directory + rest;
        assert(path_glob(directory + rest, pattern, false).matches_from(i, j));
    } else if j < pattern.len() {
        let glob = path_glob(directory, pattern, true);
        if pattern[j] == "**"@ {
            if glob.matches_from(i, j + 1) {
                lemma_can_be_completed(directory, pattern, i, j + 1);
                let rest = choose|rest: Seq<Seq<char>>|
                    #![trigger directory + rest]
                    path_glob(directory + rest, pattern, false).matches_from(i, j + 1);
                let whole = path_glob(directory + rest, pattern, false);
                assert(whole.matches_from(i, j));
            } else {
                lemma_can_be_completed(directory, pattern, i + 1, j);
                let rest = choose|rest: Seq<Seq<char>>|
                    #![trigger directory + rest]
                    path_glob(directory + rest, pattern, false).matches_from(i + 1, j);
                let whole = path_glob(directory + rest, pattern, false);
                assert(whole.matches_from(i, j));
            }
        } else {
            lemma_can_be_completed(directory, pattern, i + 1, j + 1);
            let rest = choose|rest: Seq<Seq<char>>|
                #![trigger directory + rest]
                path_glob(directory + rest, pattern, false).matches_from(i + 1, j + 1);
            let whole = path_glob(directory + rest, pattern, false);
            assert((directory + rest)[i] == directory[i]);
            assert((glob.fits)(i, j));
            assert((whole.fits)(i, j));
            assert(whole.matches_from(i, j));
        }
    }
}

proof fn lemma_rest_matches(
    directory: Seq<Seq<char>>,
    pattern: Seq<Seq<char>>,
    rest: Seq<Seq<char>>,
    i: int,
    j: int,
)
    requires
        directory.len() <= i,
        0 <= j <= pattern.len(),
        directory.len() + rest.len() - i == pattern.len() - j,
        forall|k: int|
            j <= k < pattern.len() ==> (directory + rest)[i + (k - j)] == #[trigger] pattern[k],
    ensures
        path_glob(directory + rest, pattern, false).matches_from(i, j),
    decreases pattern.len() - j,
{
    let glob = path_glob(directory + rest, pattern, false);
    if j < pattern.len() {
        assert forall|k: int| j + 1 <= k < pattern.len() implies (directory + rest)[(i + 1) + (k - (
        j + 1))] == #[trigger] pattern[k] by {
            assert((i + 1) + (k - (j + 1)) == i + (k - j));
        }
        lemma_rest_matches(directory, pattern, rest, i + 1, j + 1);
        assert(pattern[j] == pattern[j]);
        assert((directory + rest)[i] == pattern[j]);
        if pattern[j] == "**"@ {
            lemma_behind_star(glob, i + 1, j);
        } else {
            law_a_pattern_matches_itself(pattern[j]);
            assert((glob.fits)(i, j));
        }
    }
}

/// Where what follows a star matches, the star and what follows it do.
proof fn lemma_behind_star(glob: Glob, i: int, j: int)
    requires
        (glob.star)(j),
        0 <= j < glob.m,
        0 < i <= glob.n,
        !glob.prefix,
        glob.matches_from(i, j + 1),
    ensures
        glob.matches_from(i - 1, j),
{
    if i == glob.n {
        assert(glob.matches_from(i, j));
    }
    assert(glob.matches_from(i, j));
    assert(glob.matches_from(i - 1, j));
}

/// What is found in the cache was stored under the key that is looked for, in
/// the current format, with both streams; and of every output that the entry
/// lists there is a plain copy with the listed digest, whose place is safe and
/// which no link leads away from.
pub proof fn law_a_hit_is_whole_and_unchanged(
    root: Seq<char>,
    entry: Seq<char>,
    key: Seq<char>,
    seen: EntryObservation,
)
    ensures
        found(root, entry, key, seen) matches Ok(Some(hit)) ==> {
            &&& seen.metadata matches Ok(Some(metadata)) && metadata.version
                == CACHE_FORMAT_VERSION && metadata.key@ == key && hit.restores.len()
                == metadata@.outputs.len() && forall|i: int|
                0 <= i < metadata@.outputs.len() ==> restores_intact(
                    root,
                    entry,
                    #[trigger] metadata@.outputs[i],
                    seen.outputs@[i],
                    hit.restores[i],
                )
            &&& seen.stdout matches Ok(out) && hit.output.stdout == out@
            &&& seen.stderr matches Ok(err) && hit.output.stderr == err@
        },
{
    if let Ok(Some(hit)) = found(root, entry, key, seen) {
        let metadata = entry_metadata(join_path(entry, "metadata.json"@), key, seen.metadata)->Ok_0->0;
        lemma_restores(root, entry, metadata.outputs, seen.outputs@, metadata.outputs.len());
    }
}

/// Whether a file is restored from the copy of an output: a plain one with the
/// digest of the output, at its place in the entry, to its place below `root`.
pub open spec fn restores_intact(
    root: Seq<char>,
    entry: Seq<char>,
    output: CachedOutputView,
    seen: OutputObservation,
    restore: RestoreView,
) -> bool {
    &&& is_safe_path(output.path)
    &&& seen.plain == Ok::<bool, IoError>(true)
    &&& seen.contents matches Ok(contents) && hex(sha256_of(contents@)) == output.sha256
    &&& symlink_problem(root, join_path(root, output.path), seen.probes@) is None
    &&& restore.source == join_path(join_path(entry, "outputs"@), output.path)
    &&& restore.destination == join_path(root, output.path)
    &&& restore.mode == output.mode
}

proof fn lemma_restores(
    root: Seq<char>,
    entry: Seq<char>,
    outputs: Seq<CachedOutputView>,
    seen: Seq<OutputObservation>,
    count: nat,
)
    requires
        count <= outputs.len(),
    ensures
        output_restores(root, entry, outputs, seen, count) matches Ok(Some(restores))
            ==> restores.len() == count && count <= seen.len() && forall|i: int|
            0 <= i < count ==> restores_intact(
                root,
                entry,
                #[trigger] outputs[i],
                seen[i],
                restores[i],
            ),
    decreases count,
{
    if count > 0 {
        lemma_restores(root, entry, outputs, seen, (count - 1) as nat);
        if let Ok(Some(restores)) = output_restores(root, entry, outputs, seen, count) {
            let earlier = output_restores(root, entry, outputs, seen, (count - 1) as nat)->Ok_0->0;
            assert forall|i: int| 0 <= i < count implies restores_intact(
                root,
                entry,
                #[trigger] outputs[i],
                seen[i],
                restores[i],
            ) by {
                if i < count - 1 {
                    assert(restores[i] == earlier[i]);
                }
            }
        }
    }
}

/// An entry for another key, in another format or without a description is no
/// hit, and no failure; nor is one whose copy of an output has changed.
pub proof fn law_an_entry_that_does_not_fit_is_no_hit(
    root: Seq<char>,
    entry: Seq<char>,
    key: Seq<char>,
    seen: EntryObservation,
)
    ensures
        seen.metadata matches Ok(Some(metadata)) && (metadata.key@ != key || metadata.version
            != CACHE_FORMAT_VERSION) ==> found(root, entry, key, seen) == Ok::<
            Option<HitView>,
            CacheFault,
        >(None),
        seen.metadata matches Ok(None) ==> found(root, entry, key, seen) == Ok::<
            Option<HitView>,
            CacheFault,
        >(None),
        seen.metadata matches Err(error) && error.kind == IoErrorKind::NotFound ==> found(
            root,
            entry,
            key,
            seen,
        ) == Ok::<Option<HitView>, CacheFault>(None),
        seen.metadata matches Ok(Some(metadata)) && (exists|i: int|
            0 <= i < metadata@.outputs.len() && i < seen.outputs@.len() && (#[trigger]
            seen.outputs@[i].contents matches Ok(contents) && hex(sha256_of(contents@))
                != metadata@.outputs[i].sha256)) ==> !(found(root, entry, key, seen) matches Ok(
            Some(_),
        )),
{
    law_a_hit_is_whole_and_unchanged(root, entry, key, seen);
    if let Ok(Some(metadata)) = seen.metadata {
        if found(root, entry, key, seen) matches Ok(Some(_)) {
            let hit = found(root, entry, key, seen)->Ok_0->0;
            assert forall|i: int|
                0 <= i < metadata@.outputs.len() && i < seen.outputs@.len() implies !(#[trigger]
            seen.outputs@[i].contents matches Ok(contents) && hex(sha256_of(contents@))
                != metadata@.outputs[i].sha256) by {
                assert(restores_intact(
                    root,
                    entry,
                    metadata@.outputs[i],
                    seen.outputs@[i],
                    hit.restores[i],
                ));
            }
        }
    }
}

/// The description of an entry names its key and every file, with its path, its
/// digest and its mode, in order.
pub proof fn law_a_stored_entry_describes_every_file(key: Seq<char>, files: Seq<ReadFileView>)
    ensures
        described(key, files).key == key,
        described(key, files).version == CACHE_FORMAT_VERSION,
        described(key, files).outputs.len() == files.len(),
        forall|i: int|
            0 <= i < files.len() ==> (#[trigger] described(key, files).outputs[i]).path
                == files[i].path && described(key, files).outputs[i].mode == files[i].mode
                && described(key, files).outputs[i].sha256 == hex(sha256_of(files[i].contents)),
{
}

/// Storing is refused exactly where a file would lie outside the project, and
/// the first such file is named.
pub proof fn law_no_file_outside_the_project_is_stored(
    root: Seq<char>,
    files: Seq<ReadFileView>,
    count: nat,
)
    requires
        count <= files.len(),
    ensures
        match escaping_output(root, files, count) {
            None => forall|i: int|
                0 <= i < count ==> is_below(join_path(root, (#[trigger] files[i]).path), root),
            Some(fault) => exists|k: int|
                0 <= k < count && !is_below(join_path(root, (#[trigger] files[k]).path), root)
                    && fault == escaping_path(join_path(root, files[k].path)) && forall|j: int|
                    0 <= j < k ==> is_below(join_path(root, (#[trigger] files[j]).path), root),
        },
    decreases count,
{
    if count > 0 {
        law_no_file_outside_the_project_is_stored(root, files, (count - 1) as nat);
        if escaping_output(root, files, (count - 1) as nat) is None && escaping_output(
            root,
            files,
            count,
        ) is Some {
            assert(!is_below(join_path(root, files[count - 1].path), root));
        }
    }
}

/// A prepared entry is published unless one is there; one that is there stays,
/// unless entries are to be refreshed.
pub proof fn law_entries_are_replaced_only_to_refresh(refresh: bool)
    ensures
        published(false, refresh) == Publication::Publish,
        published(true, false) == Publication::Keep,
        published(true, true) == Publication::Replace,
{
}

/// The path to the `k`th step on the way along `parts`.
pub open spec fn step_at(current: Seq<char>, parts: Seq<Seq<char>>, k: int) -> Seq<char>
    decreases k,
{
    if k <= 0 {
        join_path(current, parts[0])
    } else {
        join_path(step_at(current, parts, k - 1), parts[k])
    }
}

/// The way is refused exactly at its first link, or at the first step that could
/// not be looked at, unless a step before that is missing.
pub proof fn law_the_way_is_refused_at_its_first_link(
    current: Seq<char>,
    parts: Seq<Seq<char>>,
    probes: Seq<Result<bool, IoError>>,
    k: int,
)
    requires
        0 <= k < parts.len(),
        k < probes.len(),
        forall|j: int| 0 <= j < k ==> #[trigger] probes[j] == Ok::<bool, IoError>(false),
    ensures
        probes[k] == Ok::<bool, IoError>(true) ==> symlink_on_way(current, parts, probes) == Some(
            CacheFault::Invalid {
                message: "cache output restoration refuses symlink component "@ + step_at(
                    current,
                    parts,
                    k,
                ),
            },
        ),
        probes[k] matches Err(error) && error.kind == IoErrorKind::NotFound ==> symlink_on_way(
            current,
            parts,
            probes,
        ) is None,
        probes[k] matches Err(error) && error.kind != IoErrorKind::NotFound ==> symlink_on_way(
            current,
            parts,
            probes,
        ) is Some,
    decreases k,
{
    if k > 0 {
        assert(probes[0] == Ok::<bool, IoError>(false));
        let here = join_path(current, parts[0]);
        let rest = parts.drop_first();
        let later = probes.drop_first();
        assert forall|j: int| 0 <= j < k - 1 implies #[trigger] later[j] == Ok::<bool, IoError>(
            false,
        ) by {
            assert(later[j] == probes[j + 1]);
        }
        law_the_way_is_refused_at_its_first_link(here, rest, later, k - 1);
        lemma_step_at(current, parts, k);
        assert(later[k - 1] == probes[k]);
    }
}

proof fn lemma_step_at(current: Seq<char>, parts: Seq<Seq<char>>, k: int)
    requires
        0 < k < parts.len(),
    ensures
        step_at(current, parts, k) == step_at(
            join_path(current, parts[0]),
            parts.drop_first(),
            k - 1,
        ),
    decreases k,
{
    if k > 1 {
        lemma_step_at(current, parts, k - 1);
        assert(parts.drop_first()[k - 1] == parts[k]);
    } else {
        assert(step_at(current, parts, 0) == join_path(current, parts[0]));
        assert(parts.drop_first()[0] == parts[1]);
    }
}

/// A way without links, along which everything is there, is not refused.
pub proof fn law_a_way_without_links_is_clear(
    current: Seq<char>,
    parts: Seq<Seq<char>>,
    probes: Seq<Result<bool, IoError>>,
)
    requires
        forall|j: int| 0 <= j < probes.len() ==> #[trigger] probes[j] == Ok::<bool, IoError>(false),
    ensures
        symlink_on_way(current, parts, probes) is None,
    decreases parts.len(),
{
    if parts.len() > 0 && probes.len() > 0 {
        assert(probes[0] == Ok::<bool, IoError>(false));
        let later = probes.drop_first();
        assert forall|j: int| 0 <= j < later.len() implies #[trigger] later[j] == Ok::<
            bool,
            IoError,
        >(false) by {
            assert(later[j] == probes[j + 1]);
        }
        law_a_way_without_links_is_clear(join_path(current, parts[0]), parts.drop_first(), later);
    }
}

/// The steps that are looked at are those on the way, each once and in order.
pub proof fn law_every_step_on_the_way_is_looked_at(
    current: Seq<char>,
    parts: Seq<Seq<char>>,
    k: int,
)
    requires
        0 <= k < parts.len(),
    ensures
        step_paths(current, parts).len() == parts.len(),
        step_paths(current, parts)[k] == step_at(current, parts, k),
    decreases parts.len(),
{
    let here = join_path(current, parts[0]);
    let rest = parts.drop_first();
    if rest.len() > 0 {
        law_every_step_on_the_way_is_looked_at(here, rest, if k > 0 {
            k - 1
        } else {
            0
        });
    } else {
        assert(step_paths(here, rest).len() == 0);
    }
    if k > 0 {
        lemma_step_at(current, parts, k);
    }
}

/// A path of an output is safe exactly where it is relative and leads nowhere
/// up.
pub proof fn law_safe_paths_stay_below(path: Seq<char>)
    ensures
        is_safe_path(path) <==> path.len() > 0 && path[0] != '/' && forall|i: int|
            0 <= i < components(path).len() ==> #[trigger] components(path)[i] != ".."@,
{
    let parts = components(path);
    if parts.contains(".."@) {
        let i = choose|i: int| 0 <= i < parts.len() && parts[i] == ".."@;
        assert(parts[i] == ".."@);
    }
}

/// Bytes are written in two digits each, the higher first.
pub proof fn law_bytes_are_written_in_two_digits(bytes: Seq<u8>, i: int)
    requires
        0 <= i < bytes.len(),
    ensures
        hex(bytes).len() == 2 * bytes.len(),
        hex(bytes)[2 * i] == hex_digit((bytes[i] / 16) as nat),
        hex(bytes)[2 * i + 1] == hex_digit((bytes[i] % 16) as nat),
    decreases bytes.len(),
{
    let front = bytes.drop_last();
    if i < front.len() {
        law_bytes_are_written_in_two_digits(front, i);
    } else if front.len() > 0 {
        law_bytes_are_written_in_two_digits(front, 0);
    } else {
        assert(hex(front).len() == 0);
    }
}

/// An entry that lacks a stream is no hit, and no failure; where a stream is there
/// and cannot be read, the failure names it.
pub proof fn law_an_entry_without_its_streams_is_no_hit(
    root: Seq<char>,
    entry: Seq<char>,
    key: Seq<char>,
    seen: EntryObservation,
)
    requires
        seen.metadata matches Ok(Some(metadata)) && metadata.key@ == key && metadata.version
            == CACHE_FORMAT_VERSION,
    ensures
        seen.stdout matches Err(error) ==> found(root, entry, key, seen) == (if error.kind
            == IoErrorKind::NotFound {
            Ok::<Option<HitView>, CacheFault>(None)
        } else {
            Err::<Option<HitView>, CacheFault>(
                CacheFault::Io { path: join_path(entry, "stdout"@), source: error@ },
            )
        }),
        seen.stdout is Ok ==> (seen.stderr matches Err(error) ==> found(root, entry, key, seen) == (
        if error.kind == IoErrorKind::NotFound {
            Ok::<Option<HitView>, CacheFault>(None)
        } else {
            Err::<Option<HitView>, CacheFault>(
                CacheFault::Io { path: join_path(entry, "stderr"@), source: error@ },
            )
        })),
        found(root, entry, key, seen) matches Ok(Some(hit)) ==> (seen.stdout matches Ok(stdout)
            && hit.output.stdout == stdout@) && (seen.stderr matches Ok(stderr)
            && hit.output.stderr == stderr@),
{
}

} // verus!
