use vstd::prelude::*;

use crate::names::{extension_of, has_extension};

verus! {

/// A snapshot of one node of a directory tree: a regular file, or a
/// directory with its entries.
#[derive(Debug, PartialEq, Eq)]
pub enum Entry {
    File(String),
    Dir(String, Vec<Entry>),
}

/// The paths of all files under `entry`, in depth-first order, each as the
/// sequence of its components, with `prefix` in front.
pub open spec fn entry_files(prefix: Seq<Seq<char>>, entry: Entry) -> Seq<Seq<Seq<char>>>
    decreases entry,
{
    match entry {
        Entry::File(name) => seq![prefix.push(name@)],
        Entry::Dir(name, children) => tree_files(prefix.push(name@), children@),
    }
}

/// The paths of all files under a sequence of sibling entries, in order.
pub open spec fn tree_files(prefix: Seq<Seq<char>>, entries: Seq<Entry>) -> Seq<Seq<Seq<char>>>
    decreases entries,
{
    if entries.len() == 0 {
        Seq::empty()
    } else {
        tree_files(prefix, entries.subrange(0, entries.len() - 1)) + entry_files(
            prefix,
            entries[entries.len() - 1],
        )
    }
}

/// The paths among `paths` whose last component has the extension `ext`,
/// in their order.
pub open spec fn with_extension(paths: Seq<Seq<Seq<char>>>, ext: Seq<char>) -> Seq<
    Seq<Seq<char>>,
>
    decreases paths.len(),
{
    if paths.len() == 0 {
        Seq::empty()
    } else {
        with_extension(paths.drop_last(), ext) + if extension_of(paths.last().last()) == Some(
            ext,
        ) {
            seq![paths.last()]
        } else {
            Seq::empty()
        }
    }
}

/// Paths of all the files under `entries` whose extension is `ext`,
/// each behind `prefix`.
pub open spec fn files_with_extension(
    prefix: Seq<Seq<char>>,
    entries: Seq<Entry>,
    ext: Seq<char>,
) -> Seq<Seq<Seq<char>>> {
    with_extension(tree_files(prefix, entries), ext)
}

proof fn lemma_with_extension_concat(
    a: Seq<Seq<Seq<char>>>,
    b: Seq<Seq<Seq<char>>>,
    ext: Seq<char>,
)
    ensures
        with_extension(a + b, ext) == with_extension(a, ext) + with_extension(b, ext),
    decreases b.len(),
{
    if b.len() == 0 {
        assert(a + b =~= a);
        assert(with_extension(a, ext) + with_extension(b, ext) =~= with_extension(a, ext));
    } else {
        assert((a + b).drop_last() =~= a + b.drop_last());
        lemma_with_extension_concat(a, b.drop_last(), ext);
    }
}

proof fn lemma_tree_files_step(prefix: Seq<Seq<char>>, entries: Seq<Entry>, i: int)
    requires
        0 <= i < entries.len(),
    ensures
        tree_files(prefix, entries.subrange(0, i + 1)) == tree_files(
            prefix,
            entries.subrange(0, i),
        ) + entry_files(prefix, entries[i]),
{
    let s = entries.subrange(0, i + 1);
    assert(s.subrange(0, s.len() - 1) =~= entries.subrange(0, i));
}

pub(crate) proof fn lemma_tree_files_concat(prefix: Seq<Seq<char>>, a: Seq<Entry>, b: Seq<Entry>)
    ensures
        tree_files(prefix, a + b) == tree_files(prefix, a) + tree_files(prefix, b),
    decreases b.len(),
{
    if b.len() == 0 {
        assert(a + b =~= a);
        assert(tree_files(prefix, a) + tree_files(prefix, b) =~= tree_files(prefix, a));
    } else {
        let ab = a + b;
        assert(ab.subrange(0, ab.len() - 1) =~= a + b.subrange(0, b.len() - 1));
        lemma_tree_files_concat(prefix, a, b.subrange(0, b.len() - 1));
        assert(tree_files(prefix, ab) =~= tree_files(prefix, a) + tree_files(prefix, b));
    }
}

/// `prefix` with one more component.
pub fn extend_path(prefix: &Vec<String>, name: &String) -> (r: Vec<String>)
    ensures
        r.deep_view() == prefix.deep_view().push(name@),
{
    let mut r: Vec<String> = Vec::new();
    let mut i: usize = 0;
    while i < prefix.len()
        invariant
            i <= prefix.len(),
            r.deep_view() =~= prefix.deep_view().subrange(0, i as int),
        decreases prefix.len() - i,
    {
        let ghost old_r = r.deep_view();
        let item = prefix[i].clone();
        assert(item@ == prefix.deep_view()[i as int]);
        r.push(item);
        assert(r.deep_view() =~= old_r.push(item@));
        i = i + 1;
    }
    assert(prefix.deep_view().subrange(0, i as int) =~= prefix.deep_view());
    let ghost old_r = r.deep_view();
    let last = name.clone();
    r.push(last);
    assert(r.deep_view() =~= old_r.push(name@));
    r
}

fn collect_with_extension(
    prefix: &Vec<String>,
    entries: &Vec<Entry>,
    ext: &str,
    found: &mut Vec<Vec<String>>,
)
    ensures
        final(found).deep_view() == old(found).deep_view() + files_with_extension(
            prefix.deep_view(),
            entries@,
            ext@,
        ),
    decreases entries,
{
    let ghost start = found.deep_view();
    let mut i: usize = 0;
    while i < entries.len()
        invariant
            i <= entries.len(),
            found.deep_view() == start + files_with_extension(
                prefix.deep_view(),
                entries@.subrange(0, i as int),
                ext@,
            ),
        decreases entries.len() - i,
    {
        let ghost before = found.deep_view();
        proof {
            lemma_tree_files_step(prefix.deep_view(), entries@, i as int);
            lemma_with_extension_concat(
                tree_files(prefix.deep_view(), entries@.subrange(0, i as int)),
                entry_files(prefix.deep_view(), entries@[i as int]),
                ext@,
            );
        }
        match &entries[i] {
            Entry::File(name) => {
                let path = extend_path(prefix, name);
                let ghost one = seq![path.deep_view()];
                assert(one.drop_last() =~= Seq::<Seq<Seq<char>>>::empty());
                assert(one.last().last() == name@);
                assert(with_extension(one.drop_last(), ext@) =~= Seq::empty());
                if has_extension(name.as_str(), ext) {
                    let ghost pv = path.deep_view();
                    found.push(path);
                    assert(found.deep_view() =~= before.push(pv));
                    assert(found.deep_view() =~= before + with_extension(one, ext@));
                } else {
                    assert(before =~= before + with_extension(one, ext@));
                }
            },
            Entry::Dir(name, children) => {
                let inner = extend_path(prefix, name);
                collect_with_extension(&inner, children, ext, found);
            },
        }
        assert(found.deep_view() =~= start + files_with_extension(
            prefix.deep_view(),
            entries@.subrange(0, i + 1),
            ext@,
        ));
        i = i + 1;
    }
    assert(entries@.subrange(0, entries.len() as int) =~= entries@);
}

/// Every file under `entries` whose extension is `ext`, in depth-first order.
/// With `relative`, each path is given from the root; otherwise the root's
/// own components `root` stand in front of it.
pub fn find_files_by_extension(
    root: &Vec<String>,
    entries: &Vec<Entry>,
    ext: &str,
    relative: bool,
) -> (r: Vec<Vec<String>>)
    ensures
        r.deep_view() == files_with_extension(
            if relative {
                Seq::empty()
            } else {
                root.deep_view()
            },
            entries@,
            ext@,
        ),
{
    let mut found: Vec<Vec<String>> = Vec::new();
    if relative {
        let none: Vec<String> = Vec::new();
        assert(none.deep_view() =~= Seq::<Seq<char>>::empty());
        collect_with_extension(&none, entries, ext, &mut found);
    } else {
        collect_with_extension(root, entries, ext, &mut found);
    }
    assert(found.deep_view() =~= Seq::<Seq<Seq<char>>>::empty() + files_with_extension(
        if relative {
            Seq::empty()
        } else {
            root.deep_view()
        },
        entries@,
        ext@,
    ));
    found
}

} // verus!
