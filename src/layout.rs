use vstd::prelude::*;

use crate::names::{split_on, split_spec};
use crate::tree::{files_with_extension, find_files_by_extension, Entry};

verus! {

/// The candidates for the source root, most specific layout first.
pub open spec fn source_candidates() -> Seq<Seq<char>> {
    seq!["./src/main/java/"@, "./src/java/"@, "./src/"@]
}

/// The candidates for the library root.
pub open spec fn libs_candidates() -> Seq<Seq<char>> {
    seq!["./libs/"@, "./deps/"@]
}

/// The first candidate whose flag says it is an existing directory.
pub open spec fn first_existing(candidates: Seq<Seq<char>>, is_dir: Seq<bool>) -> Option<
    Seq<char>,
>
    decreases candidates.len(),
{
    if candidates.len() == 0 || is_dir.len() != candidates.len() {
        None
    } else {
        match first_existing(candidates.drop_last(), is_dir.drop_last()) {
            Some(c) => Some(c),
            None => if is_dir.last() {
                Some(candidates.last())
            } else {
                None
            },
        }
    }
}

/// The pieces of a `/`-separated path that are not empty.
pub open spec fn non_empty_pieces(pieces: Seq<Seq<char>>) -> Seq<Seq<char>>
    decreases pieces.len(),
{
    if pieces.len() == 0 {
        Seq::empty()
    } else if pieces.last().len() == 0 {
        non_empty_pieces(pieces.drop_last())
    } else {
        non_empty_pieces(pieces.drop_last()).push(pieces.last())
    }
}

/// The components of a path written with `/` separators.
pub open spec fn components_of(path: Seq<char>) -> Seq<Seq<char>> {
    non_empty_pieces(split_spec(path, '/'))
}

/// The candidates for the source root, in the order they are tried.
pub fn source_search_paths() -> (r: Vec<String>)
    ensures
        r.deep_view() == source_candidates(),
{
    let r = vec!["./src/main/java/".to_owned(), "./src/java/".to_owned(), "./src/".to_owned()];
    assert(r.deep_view() =~= source_candidates());
    r
}

/// The candidates for the library root, in the order they are tried.
pub fn libs_search_paths() -> (r: Vec<String>)
    ensures
        r.deep_view() == libs_candidates(),
{
    let r = vec!["./libs/".to_owned(), "./deps/".to_owned()];
    assert(r.deep_view() =~= libs_candidates());
    r
}

/// The first of `candidates` that is an existing directory, where
/// `is_dir[i]` tells whether `candidates[i]` is one.
pub fn first_existing_directory(candidates: &Vec<String>, is_dir: &Vec<bool>) -> (r: Option<
    String,
>)
    requires
        candidates.len() == is_dir.len(),
    ensures
        r matches Some(c) ==> first_existing(candidates.deep_view(), is_dir@) == Some(c@),
        r is None <==> first_existing(candidates.deep_view(), is_dir@) is None,
{
    let ghost cv = candidates.deep_view();
    let mut i: usize = 0;
    while i < candidates.len()
        invariant
            cv == candidates.deep_view(),
            candidates.len() == is_dir.len(),
            i <= candidates.len(),
            first_existing(cv.subrange(0, i as int), is_dir@.subrange(0, i as int)) is None,
        decreases candidates.len() - i,
    {
        let ghost c1 = cv.subrange(0, i + 1);
        let ghost d1 = is_dir@.subrange(0, i + 1);
        assert(c1.drop_last() =~= cv.subrange(0, i as int));
        assert(d1.drop_last() =~= is_dir@.subrange(0, i as int));
        if is_dir[i] {
            proof {
                lemma_first_existing_prefix(cv, is_dir@, i + 1);
            }
            return Some(candidates[i].clone());
        }
        i = i + 1;
    }
    assert(cv.subrange(0, i as int) =~= cv);
    assert(is_dir@.subrange(0, i as int) =~= is_dir@);
    None
}

proof fn lemma_first_existing_prefix(candidates: Seq<Seq<char>>, is_dir: Seq<bool>, k: int)
    requires
        candidates.len() == is_dir.len(),
        0 < k <= candidates.len(),
        first_existing(candidates.subrange(0, k), is_dir.subrange(0, k)) is Some,
    ensures
        first_existing(candidates, is_dir) == first_existing(
            candidates.subrange(0, k),
            is_dir.subrange(0, k),
        ),
    decreases candidates.len() - k,
{
    if k < candidates.len() {
        let c1 = candidates.subrange(0, k + 1);
        let d1 = is_dir.subrange(0, k + 1);
        assert(c1.drop_last() =~= candidates.subrange(0, k));
        assert(d1.drop_last() =~= is_dir.subrange(0, k));
        lemma_first_existing_prefix(candidates, is_dir, k + 1);
    } else {
        assert(candidates.subrange(0, k) =~= candidates);
        assert(is_dir.subrange(0, k) =~= is_dir);
    }
}

/// The components of a path written with `/` separators; empty pieces
/// (from a leading, trailing or doubled `/`) are left out.
pub fn path_components(path: &str) -> (r: Vec<String>)
    ensures
        r.deep_view() == components_of(path@),
{
    let pieces = split_on(path, '/');
    let ghost pv = pieces.deep_view();
    let mut r: Vec<String> = Vec::new();
    let mut i: usize = 0;
    while i < pieces.len()
        invariant
            pv == pieces.deep_view(),
            i <= pieces.len(),
            r.deep_view() == non_empty_pieces(pv.subrange(0, i as int)),
        decreases pieces.len() - i,
    {
        let ghost sub = pv.subrange(0, i + 1);
        assert(sub.drop_last() =~= pv.subrange(0, i as int));
        if !pieces[i].as_str().is_empty() {
            let ghost before = r.deep_view();
            r.push(pieces[i].clone());
            assert(r.deep_view() =~= before.push(pv[i as int]));
        }
        i = i + 1;
    }
    assert(pv.subrange(0, i as int) =~= pv);
    r
}

/// The source files under the source root `root`, whose snapshot is
/// `entries`, each with the root's components in front.
pub fn source_files(root: &str, entries: &Vec<Entry>) -> (r: Vec<Vec<String>>)
    ensures
        r.deep_view() == files_with_extension(components_of(root@), entries@, "java"@),
{
    let comps = path_components(root);
    find_files_by_extension(&comps, entries, "java", false)
}

/// The compiled artifacts under the output-root snapshot `entries`, each
/// relative to the output root.
pub fn class_files(entries: &Vec<Entry>) -> (r: Vec<Vec<String>>)
    ensures
        r.deep_view() == files_with_extension(Seq::empty(), entries@, "class"@),
{
    let none: Vec<String> = Vec::new();
    find_files_by_extension(&none, entries, "class", true)
}

/// The library archives under the library root, if there is one; `entries`
/// is the snapshot of that root.
pub fn libs(root: Option<&str>, entries: &Vec<Entry>) -> (r: Vec<Vec<String>>)
    ensures
        root matches Some(d) ==> r.deep_view() == files_with_extension(
            components_of(d@),
            entries@,
            "jar"@,
        ),
        root is None ==> r@.len() == 0,
{
    match root {
        Some(d) => {
            let comps = path_components(d);
            find_files_by_extension(&comps, entries, "jar", false)
        },
        None => Vec::new(),
    }
}

} // verus!
