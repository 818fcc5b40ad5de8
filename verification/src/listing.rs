//! The listing of a directory tree: every entry below a root, as a path.

use crate::filter::{is_video_name, video_extensions, video_files};
use vstd::prelude::*;
use vstd::string::*;

verus! {

/// One entry of a directory as it was read.
#[derive(Debug, PartialEq, Eq)]
pub enum Entry {
    /// Anything that is not a directory, by its name.
    File { name: String },
    /// A directory, by its name, with its own entries.
    Dir { name: String, entries: Vec<Entry> },
}

/// The path of the entry `name` in the directory `dir`.
pub open spec fn child_path(dir: Seq<char>, name: Seq<char>) -> Seq<char> {
    dir + seq!['/'] + name
}

/// The path of the entry `name` in the directory `dir`.
pub fn join_path(dir: &str, name: &str) -> (path: String)
    ensures
        path@ == child_path(dir@, name@),
{
    let mut path = dir.to_owned();
    proof {
        reveal_strlit("/");
    }
    path.append("/");
    path.append(name);
    assert(path@ =~= child_path(dir@, name@));
    path
}

/// The paths of one entry of `dir`: its own, and after it those of all that
/// lies below it.
pub open spec fn entry_paths(dir: Seq<char>, entry: Entry) -> Seq<Seq<char>>
    decreases entry,
{
    match entry {
        Entry::File { name } => seq![child_path(dir, name@)],
        Entry::Dir { name, entries } => seq![child_path(dir, name@)] + listing(
            child_path(dir, name@),
            entries@,
        ),
    }
}

/// The paths of the entries of `dir`, at any depth, in the order in which
/// they were read.
pub open spec fn listing(dir: Seq<char>, entries: Seq<Entry>) -> Seq<Seq<char>>
    decreases entries,
{
    if entries.len() == 0 {
        Seq::empty()
    } else {
        listing(dir, entries.drop_last()) + entry_paths(dir, entries.last())
    }
}

/// The name of an entry.
pub open spec fn entry_name(entry: Entry) -> Seq<char> {
    match entry {
        Entry::File { name } => name@,
        Entry::Dir { name, entries } => name@,
    }
}

/// `names` leads down from `entries` to an entry: its first name is that of
/// an entry here, and each further name is that of an entry of the directory
/// named before it.
pub open spec fn leads_to(entries: Seq<Entry>, names: Seq<Seq<char>>) -> bool
    decreases names.len(),
{
    names.len() > 0 && exists|i: int|
        0 <= i < entries.len() && entry_name(#[trigger] entries[i]) == names[0] && (names.len()
            == 1 || (entries[i] matches Entry::Dir { entries: below, .. } && leads_to(
            below@,
            names.drop_first(),
        )))
}

/// The path that `names` spell below `root`.
pub open spec fn path_of(root: Seq<char>, names: Seq<Seq<char>>) -> Seq<char>
    decreases names.len(),
{
    if names.len() == 0 {
        root
    } else {
        path_of(child_path(root, names[0]), names.drop_first())
    }
}

/// What is listed for one entry is listed for the directory that holds it.
proof fn lemma_entry_listed(dir: Seq<char>, entries: Seq<Entry>, i: int, path: Seq<char>)
    requires
        0 <= i < entries.len(),
        entry_paths(dir, entries[i]).contains(path),
    ensures
        listing(dir, entries).contains(path),
    decreases entries.len(),
{
    let front = listing(dir, entries.drop_last());
    let back = entry_paths(dir, entries.last());
    if i == entries.len() - 1 {
        let k = choose|k: int| 0 <= k < back.len() && back[k] == path;
        assert((front + back)[front.len() + k] == path);
    } else {
        lemma_entry_listed(dir, entries.drop_last(), i, path);
        let k = choose|k: int| 0 <= k < front.len() && front[k] == path;
        assert((front + back)[k] == path);
    }
}

/// The listing goes to any depth: whatever chain of names leads down the
/// tree to an entry, that entry's path is listed.
pub proof fn lemma_listing_reaches(root: Seq<char>, entries: Seq<Entry>, names: Seq<Seq<char>>)
    requires
        leads_to(entries, names),
    ensures
        listing(root, entries).contains(path_of(root, names)),
    decreases names.len(),
{
    let i = choose|i: int|
        0 <= i < entries.len() && entry_name(#[trigger] entries[i]) == names[0] && (names.len()
            == 1 || (entries[i] matches Entry::Dir { entries: below, .. } && leads_to(
            below@,
            names.drop_first(),
        )));
    let here = child_path(root, names[0]);
    let own = entry_paths(root, entries[i]);
    let path = path_of(root, names);
    assert(own[0] == here);
    if names.len() == 1 {
        assert(path_of(here, names.drop_first()) == here);
    } else {
        let below = entries[i]->Dir_entries;
        lemma_listing_reaches(here, below@, names.drop_first());
        let inner = listing(here, below@);
        let k = choose|k: int| 0 <= k < inner.len() && inner[k] == path;
        assert(own[k + 1] == path);
    }
    lemma_entry_listed(root, entries, i, path);
}

/// A path ends with the last of the names that spell it.
proof fn lemma_path_ends_with_name(root: Seq<char>, names: Seq<Seq<char>>)
    requires
        names.len() > 0,
    ensures
        names.last().is_suffix_of(path_of(root, names)),
    decreases names.len(),
{
    let here = child_path(root, names[0]);
    if names.len() == 1 {
        assert(path_of(here, names.drop_first()) == here);
        assert(names[0] =~= here.subrange(here.len() - names[0].len(), here.len() as int));
    } else {
        lemma_path_ends_with_name(here, names.drop_first());
        assert(names.drop_first().last() == names.last());
    }
}

/// A video at any depth is found: where a chain of names leads down the tree
/// to an entry whose name is a video name, the entry's path is among the
/// video files of the listing.
pub proof fn lemma_nested_video_found(
    root: Seq<char>,
    entries: Seq<Entry>,
    names: Seq<Seq<char>>,
)
    requires
        leads_to(entries, names),
        is_video_name(names.last()),
    ensures
        video_files(listing(root, entries)).contains(path_of(root, names)),
{
    let path = path_of(root, names);
    let all = listing(root, entries);
    lemma_listing_reaches(root, entries, names);
    lemma_path_ends_with_name(root, names);
    let ext = choose|ext: Seq<char>| #[trigger]
        video_extensions().contains(ext) && ext.is_suffix_of(names.last());
    assert(ext.is_suffix_of(path)) by {
        let name = names.last();
        assert(ext =~= path.subrange(path.len() - ext.len(), path.len() as int));
    }
    assert(is_video_name(path));
    let k = choose|k: int| 0 <= k < all.len() && all[k] == path;
    all.lemma_filter_contains(|name: Seq<char>| is_video_name(name), k);
}

/// The names are those of a directory tree: no name holds a `/`, and no two
/// entries of one directory share a name, at any depth.
pub open spec fn well_named(entries: Seq<Entry>) -> bool
    decreases entries,
{
    &&& forall|i: int| 0 <= i < entries.len() ==> !entry_name(#[trigger] entries[i]).contains('/')
    &&& forall|i: int, j: int|
        0 <= i < j < entries.len() ==> entry_name(#[trigger] entries[i]) != entry_name(
            #[trigger] entries[j],
        )
    &&& forall|i: int|
        0 <= i < entries.len() ==> (#[trigger] entries[i] matches Entry::Dir { entries: below, .. }
            ==> well_named(below@))
}

/// `path` is `base` itself or lies below it: it begins with `base`, and goes
/// on, if at all, with a `/`.
spec fn under(base: Seq<char>, path: Seq<char>) -> bool {
    base.is_prefix_of(path) && (path.len() == base.len() || path[base.len() as int] == '/')
}

/// Every path listed for a directory is that of one of its entries or lies
/// below it.
proof fn lemma_listed_under_entry(dir: Seq<char>, entries: Seq<Entry>, path: Seq<char>) -> (i: int)
    requires
        listing(dir, entries).contains(path),
    ensures
        0 <= i < entries.len(),
        under(child_path(dir, entry_name(entries[i])), path),
    decreases entries, 1nat,
{
    let front = listing(dir, entries.drop_last());
    let back = entry_paths(dir, entries.last());
    let k = choose|k: int| 0 <= k < (front + back).len() && (front + back)[k] == path;
    if k < front.len() {
        assert(front[k] == path);
        lemma_listed_under_entry(dir, entries.drop_last(), path)
    } else {
        assert(back[k - front.len()] == path);
        lemma_entry_paths_under(dir, entries.last(), path);
        entries.len() - 1
    }
}

/// Every path listed for an entry is the entry's own or lies below it.
proof fn lemma_entry_paths_under(dir: Seq<char>, entry: Entry, path: Seq<char>)
    requires
        entry_paths(dir, entry).contains(path),
    ensures
        under(child_path(dir, entry_name(entry)), path),
    decreases entry, 0nat,
{
    let here = child_path(dir, entry_name(entry));
    let own = entry_paths(dir, entry);
    let k = choose|k: int| 0 <= k < own.len() && own[k] == path;
    if k == 0 {
        assert(here =~= path.subrange(0, here.len() as int));
    } else {
        let below = entry->Dir_entries;
        let inner = listing(here, below@);
        assert(inner[k - 1] == path);
        let i = lemma_listed_under_entry(here, below@, path);
        let deeper = child_path(here, entry_name(below@[i]));
        assert(here =~= path.subrange(0, here.len() as int)) by {
            assert(deeper =~= path.subrange(0, deeper.len() as int));
        }
        assert(path[here.len() as int] == deeper[here.len() as int]);
    }
}

/// Paths under entries of different names are different paths.
proof fn lemma_names_part_paths(dir: Seq<char>, a: Seq<char>, b: Seq<char>, path: Seq<char>)
    requires
        !a.contains('/'),
        !b.contains('/'),
        a != b,
        under(child_path(dir, a), path),
    ensures
        !under(child_path(dir, b), path),
{
    let pa = child_path(dir, a);
    let pb = child_path(dir, b);
    let at = dir.len() + 1;
    if under(pb, path) {
        assert(pa =~= path.subrange(0, pa.len() as int));
        assert(pb =~= path.subrange(0, pb.len() as int));
        if a.len() == b.len() {
            assert forall|k: int| 0 <= k < a.len() implies a[k] == b[k] by {
                assert(a[k] == pa[at + k]);
                assert(b[k] == pb[at + k]);
            }
            assert(a =~= b);
        } else if a.len() < b.len() {
            assert(b[a.len() as int] == pb[pa.len() as int]);
            assert(b.contains(b[a.len() as int]));
        } else {
            assert(a[b.len() as int] == pa[pb.len() as int]);
            assert(a.contains(a[b.len() as int]));
        }
    }
}

/// Nothing is listed twice for one entry of a well-named tree.
proof fn lemma_entry_paths_distinct(dir: Seq<char>, entry: Entry)
    requires
        entry matches Entry::Dir { entries: below, .. } ==> well_named(below@),
    ensures
        entry_paths(dir, entry).no_duplicates(),
    decreases entry, 0nat,
{
    let here = child_path(dir, entry_name(entry));
    let own = entry_paths(dir, entry);
    if let Entry::Dir { name, entries: below } = entry {
        let inner = listing(here, below@);
        lemma_listing_distinct(here, below@);
        assert forall|i: int, j: int| 0 <= i < j < own.len() implies own[i] != own[j] by {
            assert(own[j] == inner[j - 1]);
            if i == 0 {
                let k = lemma_listed_under_entry(here, below@, own[j]);
                assert(own[j].len() > here.len());
            } else {
                assert(own[i] == inner[i - 1]);
            }
        }
    }
}

/// No path appears more than once in the listing of a well-named tree.
pub proof fn lemma_listing_distinct(dir: Seq<char>, entries: Seq<Entry>)
    requires
        well_named(entries),
    ensures
        listing(dir, entries).no_duplicates(),
    decreases entries, 1nat,
{
    if entries.len() > 0 {
        let rest = entries.drop_last();
        let front = listing(dir, rest);
        let back = entry_paths(dir, entries.last());
        assert(well_named(rest)) by {
            assert forall|i: int| 0 <= i < rest.len() implies rest[i] == entries[i] by {}
        }
        lemma_listing_distinct(dir, rest);
        lemma_entry_paths_distinct(dir, entries.last());
        let all = front + back;
        assert forall|i: int, j: int| 0 <= i < j < all.len() implies all[i] != all[j] by {
            if j < front.len() {
            } else if i >= front.len() {
                assert(all[i] == back[i - front.len()]);
                assert(all[j] == back[j - front.len()]);
            } else {
                assert(front[i] == all[i]);
                assert(back[j - front.len()] == all[j]);
                let k = lemma_listed_under_entry(dir, rest, all[i]);
                lemma_entry_paths_under(dir, entries.last(), all[j]);
                assert(rest[k] == entries[k]);
                lemma_names_part_paths(
                    dir,
                    entry_name(entries[k]),
                    entry_name(entries.last()),
                    all[i],
                );
            }
        }
    }
}

/// Lists every entry below `root`, at any depth: each entry's path, and for
/// a directory the paths of what it holds right after its own.
pub fn list_dir(root: &str, entries: &Vec<Entry>) -> (paths: Vec<String>)
    ensures
        paths.deep_view() == listing(root@, entries@),
    decreases entries,
{
    let mut paths: Vec<String> = Vec::new();
    let mut i: usize = 0;
    assert(entries@.take(0) =~= Seq::<Entry>::empty());
    assert(paths.deep_view() =~= Seq::<Seq<char>>::empty());
    while i < entries.len()
        invariant
            i <= entries.len(),
            paths.deep_view() == listing(root@, entries@.take(i as int)),
        decreases entries.len() - i,
    {
        let ghost before = paths.deep_view();
        proof {
            assert(entries@.take(i + 1).drop_last() =~= entries@.take(i as int));
            assert(entries@.take(i + 1).last() == entries@[i as int]);
            assert(listing(root@, entries@.take(i + 1)) == before + entry_paths(
                root@,
                entries@[i as int],
            ));
        }
        match &entries[i] {
            Entry::File { name } => {
                let path = join_path(root, name.as_str());
                paths.push(path);
                assert(entry_paths(root@, entries@[i as int]) == seq![child_path(root@, name@)]);
                assert(paths.deep_view() =~= before + seq![child_path(root@, name@)]);
            },
            Entry::Dir { name, entries: below } => {
                let path = join_path(root, name.as_str());
                let mut inner = list_dir(path.as_str(), below);
                let ghost listed = inner.deep_view();
                paths.push(path);
                paths.append(&mut inner);
                assert(entry_paths(root@, entries@[i as int]) == seq![child_path(root@, name@)]
                    + listed);
                assert(paths.deep_view() =~= before + (seq![child_path(root@, name@)] + listed));
            },
        }
        i += 1;
    }
    assert(entries@.take(i as int) =~= entries@);
    paths
}

} // verus!
