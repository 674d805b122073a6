use vstd::prelude::*;

use crate::layout::first_existing;
use crate::names::{
    extension_of, join_spec, last_dot, lemma_split_len, lower_of, split_spec, stem_of,
    strip_leading_dots,
};
use crate::resolve::{
    artifact_suffix, class_segments, first_match, logical_name_of, path_matches, resolve_spec,
    trim_artifact_suffix,
};
use crate::tree::{files_with_extension, tree_files, with_extension, Entry};

verus! {

/// The artifact path, relative to the output root, that the segment and
/// extension rule makes of a dotted name: its segments as directories, the
/// last one with the artifact extension.
pub open spec fn artifact_path_of(name: Seq<char>) -> Seq<Seq<char>> {
    let parts = split_spec(name, '.');
    parts.update(parts.len() - 1, parts.last() + artifact_suffix())
}

proof fn lemma_with_extension_members(paths: Seq<Seq<Seq<char>>>, ext: Seq<char>)
    ensures
        forall|p: Seq<Seq<char>>|
            #[trigger] with_extension(paths, ext).contains(p) <==> (paths.contains(p)
                && extension_of(p.last()) == Some(ext)),
    decreases paths.len(),
{
    if paths.len() > 0 {
        let init = paths.drop_last();
        lemma_with_extension_members(init, ext);
        assert(paths =~= init.push(paths.last()));
        assert forall|p: Seq<Seq<char>>|
            #[trigger] with_extension(paths, ext).contains(p) <==> (paths.contains(p)
                && extension_of(p.last()) == Some(ext)) by {
            let w = with_extension(init, ext);
            if with_extension(paths, ext).contains(p) {
                let k = choose|k: int|
                    0 <= k < with_extension(paths, ext).len() && with_extension(paths, ext)[k]
                        == p;
                if k < w.len() {
                    assert(w.contains(p));
                    let j = choose|j: int| 0 <= j < init.len() && init[j] == p;
                    assert(paths[j] == p);
                }
            }
            if paths.contains(p) && extension_of(p.last()) == Some(ext) {
                let j = choose|j: int| 0 <= j < paths.len() && paths[j] == p;
                if j < init.len() {
                    assert(init[j] == p);
                    assert(w.contains(p));
                    let k = choose|k: int| 0 <= k < w.len() && w[k] == p;
                    assert(with_extension(paths, ext)[k] == p);
                } else {
                    assert(with_extension(paths, ext)[w.len() as int] == p);
                }
            }
        }
    }
}

/// Searching a tree for an extension yields exactly the files of the tree,
/// at any depth, whose extension is that one, and no others.
pub proof fn lemma_files_with_extension_exact(
    prefix: Seq<Seq<char>>,
    entries: Seq<Entry>,
    ext: Seq<char>,
)
    ensures
        forall|p: Seq<Seq<char>>|
            #[trigger] files_with_extension(prefix, entries, ext).contains(p) <==> (tree_files(
                prefix,
                entries,
            ).contains(p) && extension_of(p.last()) == Some(ext)),
{
    lemma_with_extension_members(tree_files(prefix, entries), ext);
}

proof fn lemma_first_match_found(paths: Seq<Seq<Seq<char>>>, segs: Seq<Seq<char>>)
    ensures
        first_match(paths, segs) matches Some(q) ==> paths.contains(q) && path_matches(q, segs),
        first_match(paths, segs) is None <==> forall|p: Seq<Seq<char>>|
            #[trigger] paths.contains(p) ==> !path_matches(p, segs),
    decreases paths.len(),
{
    if paths.len() > 0 {
        let init = paths.drop_last();
        lemma_first_match_found(init, segs);
        if let Some(q) = first_match(init, segs) {
            let j = choose|j: int| 0 <= j < init.len() && init[j] == q;
            assert(paths[j] == q);
            assert(paths.contains(q));
        } else {
            assert(paths[paths.len() - 1] == paths.last());
            assert(paths.contains(paths.last()));
            assert forall|p: Seq<Seq<char>>| #[trigger]
                paths.contains(p) && !path_matches(paths.last(), segs) implies !path_matches(
                p,
                segs,
            ) by {
                let j = choose|j: int| 0 <= j < paths.len() && paths[j] == p;
                if j < init.len() {
                    assert(init[j] == p);
                    assert(init.contains(p));
                }
            }
        }
    }
}

/// Resolution gives up cleanly: it finds nothing exactly when no file of
/// the tree matches the name's segments.
pub proof fn lemma_resolve_none(entries: Seq<Entry>, name: Seq<char>)
    ensures
        resolve_spec(entries, name) is None <==> forall|p: Seq<Seq<char>>|
            #[trigger] tree_files(Seq::empty(), entries).contains(p) ==> !path_matches(
                p,
                class_segments(name),
            ),
{
    lemma_first_match_found(tree_files(Seq::empty(), entries), class_segments(name));
}

/// Matching ignores case: two names with the same lower-case form resolve
/// to the same artifact.
pub proof fn lemma_resolve_case_insensitive(entries: Seq<Entry>, a: Seq<char>, b: Seq<char>)
    requires
        lower_of(a) == lower_of(b),
    ensures
        resolve_spec(entries, a) == resolve_spec(entries, b),
{
}

proof fn lemma_join_split(s: Seq<char>, sep: char)
    ensures
        join_spec(split_spec(s, sep), sep) == s,
    decreases s.len(),
{
    if s.len() > 0 {
        let init = s.drop_last();
        let x = split_spec(init, sep);
        lemma_join_split(init, sep);
        lemma_split_len(init, sep);
        let c = s.last();
        if c == sep {
            assert(x.push(Seq::empty()).drop_last() =~= x);
            assert(join_spec(split_spec(s, sep), sep) =~= s);
        } else {
            let y = x.update(x.len() - 1, x.last().push(c));
            assert(s =~= init.push(c));
            if x.len() == 1 {
                assert(join_spec(x, sep) == x[0]);
                assert(join_spec(y, sep) == y[0]);
                assert(join_spec(y, sep) =~= s);
            } else {
                assert(y.drop_last() =~= x.drop_last());
                assert(join_spec(x, sep) == join_spec(x.drop_last(), sep).push(sep) + x.last());
                assert(join_spec(y, sep) == join_spec(y.drop_last(), sep).push(sep) + y.last());
                assert(join_spec(y, sep) =~= s);
            }
        }
    }
}

proof fn lemma_last_dot_concat(a: Seq<char>, b: Seq<char>)
    requires
        last_dot(b) >= 0,
    ensures
        last_dot(a + b) == a.len() + last_dot(b),
    decreases b.len(),
{
    if b.last() != '.' {
        assert((a + b).drop_last() =~= a + b.drop_last());
        lemma_last_dot_concat(a, b.drop_last());
    }
}

/// A dotted name that neither starts nor ends with a dot comes back from
/// its artifact path unchanged; and when that path is in the tree and is the
/// only file there that matches the name, resolution finds it.
pub proof fn lemma_resolve_round_trip(entries: Seq<Entry>, name: Seq<char>)
    requires
        name.len() > 0,
        name[0] != '.',
        name.last() != '.',
    ensures
        logical_name_of(artifact_path_of(name)) == name,
        tree_files(Seq::empty(), entries).contains(artifact_path_of(name)) && (forall|
            p: Seq<Seq<char>>,
        |
            #[trigger] tree_files(Seq::empty(), entries).contains(p) ==> (path_matches(
                p,
                class_segments(name),
            ) <==> p == artifact_path_of(name))) ==> resolve_spec(entries, name) == Some(
            artifact_path_of(name),
        ),
{
    let parts = split_spec(name, '.');
    let path = artifact_path_of(name);
    lemma_split_len(name, '.');
    let seg = parts.last();
    assert(last_dot(artifact_suffix()) == 0) by {
        reveal_with_fuel(last_dot, 7);
    }
    lemma_last_dot_concat(seg, artifact_suffix());
    assert(path.last() == seg + artifact_suffix());
    assert(stem_of(path.last()) =~= seg);
    assert(path.update(path.len() - 1, stem_of(path.last())) =~= parts);
    lemma_join_split(name, '.');
    lemma_first_match_found(tree_files(Seq::empty(), entries), class_segments(name));
}

/// The first directory found is one that exists, and every candidate before
/// it does not; a candidate is found whenever it exists and no earlier one
/// does, whatever its position.
pub proof fn lemma_first_existing_position(
    candidates: Seq<Seq<char>>,
    is_dir: Seq<bool>,
    i: int,
)
    requires
        candidates.len() == is_dir.len(),
        0 <= i < candidates.len(),
        is_dir[i],
        forall|j: int| 0 <= j < i ==> !#[trigger] is_dir[j],
    ensures
        first_existing(candidates, is_dir) == Some(candidates[i]),
    decreases candidates.len(),
{
    if i < candidates.len() - 1 {
        lemma_first_existing_position(candidates.drop_last(), is_dir.drop_last(), i);
    } else {
        lemma_first_existing_none(candidates.drop_last(), is_dir.drop_last());
    }
}

/// No directory is found when none of the candidates exists.
pub proof fn lemma_first_existing_none(candidates: Seq<Seq<char>>, is_dir: Seq<bool>)
    requires
        candidates.len() == is_dir.len(),
        forall|j: int| 0 <= j < is_dir.len() ==> !#[trigger] is_dir[j],
    ensures
        first_existing(candidates, is_dir) is None,
    decreases candidates.len(),
{
    if candidates.len() > 0 {
        lemma_first_existing_none(candidates.drop_last(), is_dir.drop_last());
    }
}

/// A class name given with its artifact extension is the same class as the
/// bare name.
pub proof fn lemma_trim_artifact_suffix(name: Seq<char>)
    ensures
        trim_artifact_suffix(name + artifact_suffix()) == trim_artifact_suffix(name),
{
    let s = name + artifact_suffix();
    assert(s.subrange(s.len() - 6, s.len() as int) =~= artifact_suffix());
    assert(s.subrange(0, s.len() - 6) =~= name);
}

} // verus!
