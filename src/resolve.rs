use vstd::prelude::*;
use vstd::string::StrSliceExecFns;

use crate::names::{
    join_spec, join_with, lower_of, lowercase, split_on, split_spec, stem, stem_of,
    strip_leading_dots, trim_leading_dots,
};
use crate::tree::{entry_files, extend_path, lemma_tree_files_concat, tree_files, Entry};

verus! {

/// The extension of a compiled artifact, with its dot.
pub open spec fn artifact_suffix() -> Seq<char> {
    seq!['.', 'c', 'l', 'a', 's', 's']
}

/// The lower-case path components that an artifact for the dotted name
/// `name` must have: the name's segments, the last one with the artifact
/// extension.
pub open spec fn class_segments(name: Seq<char>) -> Seq<Seq<char>> {
    let parts = split_spec(lower_of(name), '.');
    parts.update(parts.len() - 1, parts.last() + artifact_suffix())
}

/// Whether `path` has as many components as `segs` and each of them,
/// lower-cased, is the segment at its position.
pub open spec fn path_matches(path: Seq<Seq<char>>, segs: Seq<Seq<char>>) -> bool {
    &&& path.len() == segs.len()
    &&& forall|j: int| 0 <= j < path.len() ==> lower_of(#[trigger] path[j]) == segs[j]
}

/// The first of `paths` that matches `segs`.
pub open spec fn first_match(paths: Seq<Seq<Seq<char>>>, segs: Seq<Seq<char>>) -> Option<
    Seq<Seq<char>>,
>
    decreases paths.len(),
{
    if paths.len() == 0 {
        None
    } else {
        match first_match(paths.drop_last(), segs) {
            Some(p) => Some(p),
            None => if path_matches(paths.last(), segs) {
                Some(paths.last())
            } else {
                None
            },
        }
    }
}

/// The artifact path, relative to the output root, that a dotted name
/// resolves to among the files under `entries`.
pub open spec fn resolve_spec(entries: Seq<Entry>, name: Seq<char>) -> Option<Seq<Seq<char>>> {
    first_match(tree_files(Seq::empty(), entries), class_segments(name))
}

/// The dotted name of an artifact path relative to the output root: its
/// components joined with dots, the extension of the last one dropped, and
/// no dot at the start.
pub open spec fn logical_name_of(path: Seq<Seq<char>>) -> Seq<char> {
    if path.len() == 0 {
        Seq::empty()
    } else {
        strip_leading_dots(
            join_spec(path.update(path.len() - 1, stem_of(path.last())), '.'),
        )
    }
}

/// `name` without any number of artifact extensions at its end.
pub open spec fn trim_artifact_suffix(name: Seq<char>) -> Seq<char>
    decreases name.len(),
{
    if name.len() >= 6 && name.subrange(name.len() - 6, name.len() as int) == artifact_suffix() {
        trim_artifact_suffix(name.subrange(0, name.len() - 6))
    } else {
        name
    }
}

/// The path of an optional result, as components.
pub open spec fn opt_path_view(r: Option<Vec<String>>) -> Option<Seq<Seq<char>>> {
    match r {
        Some(p) => Some(p.deep_view()),
        None => None,
    }
}

proof fn lemma_first_match_concat(
    a: Seq<Seq<Seq<char>>>,
    b: Seq<Seq<Seq<char>>>,
    segs: Seq<Seq<char>>,
)
    ensures
        first_match(a + b, segs) == match first_match(a, segs) {
            Some(p) => Some(p),
            None => first_match(b, segs),
        },
    decreases b.len(),
{
    if b.len() == 0 {
        assert(a + b =~= a);
    } else {
        assert((a + b).drop_last() =~= a + b.drop_last());
        lemma_first_match_concat(a, b.drop_last(), segs);
    }
}

/// Whether every component of `path`, lower-cased, is the segment at its
/// position in `segs`, and the two have the same length.
fn matches_segments(path: &Vec<String>, segs: &Vec<String>) -> (r: bool)
    ensures
        r == path_matches(path.deep_view(), segs.deep_view()),
{
    if path.len() != segs.len() {
        return false;
    }
    let mut j: usize = 0;
    while j < path.len()
        invariant
            path.len() == segs.len(),
            j <= path.len(),
            forall|k: int| 0 <= k < j ==> lower_of(#[trigger] path.deep_view()[k]) == segs.deep_view()[k],
        decreases path.len() - j,
    {
        let low = lowercase(path[j].as_str());
        if low != segs[j] {
            assert(lower_of(path.deep_view()[j as int]) != segs.deep_view()[j as int]);
            return false;
        }
        j = j + 1;
    }
    true
}

fn find_first(prefix: &Vec<String>, entries: &Vec<Entry>, segs: &Vec<String>) -> (r: Option<
    Vec<String>,
>)
    ensures
        opt_path_view(r) == first_match(tree_files(prefix.deep_view(), entries@), segs.deep_view()),
    decreases entries,
{
    let ghost pv = prefix.deep_view();
    let ghost sv = segs.deep_view();
    let mut i: usize = 0;
    assert(entries@.subrange(0, 0) =~= Seq::<Entry>::empty());
    while i < entries.len()
        invariant
            pv == prefix.deep_view(),
            sv == segs.deep_view(),
            i <= entries.len(),
            first_match(tree_files(pv, entries@.subrange(0, i as int)), sv) is None,
        decreases entries.len() - i,
    {
        let ghost sub = entries@.subrange(0, i + 1);
        assert(sub.subrange(0, sub.len() - 1) =~= entries@.subrange(0, i as int));
        proof {
            lemma_first_match_concat(
                tree_files(pv, entries@.subrange(0, i as int)),
                entry_files(pv, entries@[i as int]),
                sv,
            );
        }
        proof {
            let rest = entries@.subrange(i + 1, entries.len() as int);
            assert(entries@ =~= sub + rest);
            lemma_tree_files_concat(pv, sub, rest);
            lemma_first_match_concat(tree_files(pv, sub), tree_files(pv, rest), sv);
        }
        match &entries[i] {
            Entry::File(name) => {
                let path = extend_path(prefix, name);
                let ghost one = seq![path.deep_view()];
                assert(one.drop_last() =~= Seq::<Seq<Seq<char>>>::empty());
                assert(first_match(one.drop_last(), sv) is None);
                assert(entry_files(pv, entries@[i as int]) == one);
                assert(tree_files(pv, sub) == tree_files(pv, entries@.subrange(0, i as int)) + one);
                if matches_segments(&path, segs) {
                    return Some(path);
                }
            },
            Entry::Dir(name, children) => {
                let inner = extend_path(prefix, name);
                assert(tree_files(pv, sub) == tree_files(pv, entries@.subrange(0, i as int))
                    + entry_files(pv, entries@[i as int]));
                let found = find_first(&inner, children, segs);
                if found.is_some() {
                    return found;
                }
            },
        }
        i = i + 1;
    }
    assert(entries@.subrange(0, entries.len() as int) =~= entries@);
    None
}

/// The path components, lower-cased, that an artifact for the dotted name
/// `name` must have.
pub fn class_path_segments(name: &str) -> (r: Vec<String>)
    ensures
        r.deep_view() == class_segments(name@),
{
    let low = lowercase(name);
    let mut parts = split_on(low.as_str(), '.');
    proof {
        crate::names::lemma_split_len(low@, '.');
    }
    let last = parts.len() - 1;
    let ghost before = parts.deep_view();
    let mut seg = parts[last].clone();
    assert(seg@ == before[last as int]);
    proof {
        reveal_strlit(".class");
    }
    seg.append(".class");
    assert(seg@ == before[last as int] + artifact_suffix());
    parts.set(last, seg);
    assert(parts.deep_view() =~= class_segments(name@));
    parts
}

/// The first file under the output-root snapshot `entries` whose path,
/// compared component by component without regard to case, is the dotted
/// name `name` with the artifact extension on its last segment; `None` when
/// no file matches.
pub fn resolve(entries: &Vec<Entry>, name: &str) -> (r: Option<Vec<String>>)
    ensures
        opt_path_view(r) == resolve_spec(entries@, name@),
{
    let segs = class_path_segments(name);
    let root: Vec<String> = Vec::new();
    assert(root.deep_view() =~= Seq::<Seq<char>>::empty());
    find_first(&root, entries, &segs)
}

/// The dotted name of an artifact path given relative to the output root.
pub fn to_logical_name(path: &Vec<String>) -> (r: String)
    ensures
        r@ == logical_name_of(path.deep_view()),
{
    if path.len() == 0 {
        return String::new();
    }
    let last = path.len() - 1;
    let mut parts: Vec<String> = Vec::new();
    let mut i: usize = 0;
    while i < last
        invariant
            last == path.len() - 1,
            i <= last,
            parts.deep_view() =~= path.deep_view().subrange(0, i as int),
        decreases last - i,
    {
        let ghost old_parts = parts.deep_view();
        parts.push(path[i].clone());
        assert(parts.deep_view() =~= old_parts.push(path.deep_view()[i as int]));
        i = i + 1;
    }
    let ghost old_parts = parts.deep_view();
    parts.push(stem(path[last].as_str()));
    assert(parts.deep_view() =~= old_parts.push(stem_of(path.deep_view()[last as int])));
    proof {
        reveal_strlit(".");
    }
    assert(parts.deep_view() =~= path.deep_view().update(
        last as int,
        stem_of(path.deep_view().last()),
    ));
    let joined = join_with(&parts, ".");
    trim_leading_dots(joined.as_str())
}

/// `name` without any number of artifact extensions at its end
/// (`Main.class` becomes `Main`).
pub fn strip_artifact_suffix(name: &str) -> (r: String)
    ensures
        r@ == trim_artifact_suffix(name@),
{
    proof {
        reveal_strlit(".class");
    }
    let suffix = ".class".to_owned();
    let mut n = name.unicode_len();
    assert(name@.subrange(0, n as int) =~= name@);
    while n >= 6 && name.substring_char(n - 6, n).to_owned() == suffix
        invariant
            n <= name@.len(),
            suffix@ == artifact_suffix(),
            trim_artifact_suffix(name@) == trim_artifact_suffix(name@.subrange(0, n as int)),
        decreases n,
    {
        let ghost cur = name@.subrange(0, n as int);
        assert(cur.subrange(n - 6, n as int) =~= name@.subrange(n - 6, n as int));
        assert(cur.subrange(0, n - 6) =~= name@.subrange(0, n - 6));
        n = n - 6;
    }
    let ghost cur = name@.subrange(0, n as int);
    if n >= 6 {
        assert(cur.subrange(n - 6, n as int) =~= name@.subrange(n - 6, n as int));
    }
    name.substring_char(0, n).to_owned()
}

} // verus!
