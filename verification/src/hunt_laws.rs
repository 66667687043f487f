//! What holds of a hunt: its rows do not overlap, and a live walk gives the rows that a scan of
//! the same tree gives.

#[allow(unused_imports)]
use crate::drill::{
    big_children, child_flags, drill, drill_all, falling_keys, found, landed, landings,
    largest_first, lemma_largest_first, longest, row_of, seed_flags, seeds, DirView,
};
#[allow(unused_imports)]
use crate::drill_laws::{rows_are_not_nested, separate};
#[allow(unused_imports)]
use crate::hunt::{
    covered, dir_of, holds, lemma_place, lemma_top_level, matched_bytes_count_once, place,
    scan_lists_each_directory_once, sheltered, top_level, universe, with_dir,
};
#[allow(unused_imports)]
use crate::model::{DirTotal, EntryView, RuleView};
#[allow(unused_imports)]
use crate::order::{lemma_marked, marked};
#[allow(unused_imports)]
use crate::paths::{parent_parts, parts, under};
#[allow(unused_imports)]
use crate::walk::{
    are_beneath, file_bytes, file_share, hit_at, is_dir, left_of, rule_reaches, shortest, tree_dir,
    tree_dirs, walk_lists_each_directory_once, FileView,
};
use vstd::prelude::*;

verus! {

/// No row of a hunt in a scan lies at or beneath another.
pub proof fn scan_rows_are_not_nested(
    dirs: Seq<DirTotal>,
    entries: Seq<EntryView>,
    home: Seq<Seq<char>>,
    min: nat,
    top: nat,
    i: int,
    j: int,
)
    requires
        0 <= i < j < landed(universe(dirs, top_level(entries)), home, min, top).len(),
    ensures
        ({
            let u = universe(dirs, top_level(entries));
            separate(u, landed(u, home, min, top)[i], landed(u, home, min, top)[j])
        }),
{
    let u = universe(dirs, top_level(entries));
    scan_lists_each_directory_once(dirs, top_level(entries));
    rows_are_not_nested(u, home, min, top, i, j);
}

/// No row of a hunt over a walk lies at or beneath another.
pub proof fn walk_rows_are_not_nested(
    u: Seq<DirView>,
    files: Seq<FileView>,
    home: Seq<Seq<char>>,
    min: nat,
    top: nat,
    i: int,
    j: int,
)
    requires
        tree_dirs(u, files, home),
        0 <= i < j < landed(u, home, min, top).len(),
    ensures
        separate(u, landed(u, home, min, top)[i], landed(u, home, min, top)[j]),
{
    walk_lists_each_directory_once(u, files, home);
    rows_are_not_nested(u, home, min, top, i, j);
}

// ---------------------------------------------------------------------------
// One tree
// ---------------------------------------------------------------------------
/// The bytes of the files at or beneath a path.
pub open spec fn held_at(files: Seq<FileView>, path: Seq<Seq<char>>) -> nat
    decreases files.len(),
{
    if files.len() == 0 {
        0
    } else {
        held_at(files.drop_last(), path) + if path.is_prefix_of(files.last().parts) {
            files.last().size as nat
        } else {
            0
        }
    }
}

/// What a rule may be about: a path beneath home.
pub open spec fn below(path: Seq<Seq<char>>, home: Seq<Seq<char>>) -> bool {
    home.is_prefix_of(path) && path.len() > home.len()
}

/// The files of a tree beneath home, each with what the rules say to it: no file lies beneath
/// another.
pub open spec fn is_tree(files: Seq<FileView>, rules: Seq<RuleView>, home: Seq<char>) -> bool {
    &&& are_beneath(files, parts(home))
    &&& forall|i: int, j: int|
        0 <= i < files.len() && 0 <= j < files.len() && (#[trigger] files[i]).parts.len() < (
        #[trigger] files[j]).parts.len() ==> !files[i].parts.is_prefix_of(files[j].parts)
    &&& forall|i: int|
        0 <= i < files.len() ==> (#[trigger] files[i]).ruled == rule_reaches(
            rules,
            files[i].parts,
            home,
        )
}

/// A scan's directories are those of the walk, with their bytes.
pub open spec fn same_dirs(dirs: Seq<DirTotal>, u: Seq<DirView>) -> bool {
    &&& dirs.len() == u.len()
    &&& forall|i: int|
        0 <= i < u.len() ==> (#[trigger] dirs[i]).path@ == u[i].path && parts(dirs[i].path@)
            == u[i].parts && dirs[i].total_bytes == u[i].total
}

/// A scan's entries are the paths that a rule accepts, each with the bytes at or beneath it.
pub open spec fn lists_matches(
    entries: Seq<EntryView>,
    files: Seq<FileView>,
    rules: Seq<RuleView>,
    home: Seq<char>,
) -> bool {
    &&& forall|i: int|
        0 <= i < entries.len() ==> {
            let p = parts((#[trigger] entries[i]).path);
            below(p, parts(home)) && hit_at(rules, p, home) && entries[i].size_bytes == held_at(
                files,
                p,
            )
        }
    &&& forall|p: Seq<Seq<char>>|
        below(p, parts(home)) && #[trigger] hit_at(rules, p, home) && held_at(files, p) > 0
            ==> exists|i: int| 0 <= i < entries.len() && parts((#[trigger] entries[i]).path) == p
}

// ---------------------------------------------------------------------------
// Beginnings of paths
// ---------------------------------------------------------------------------
proof fn lemma_shorter_prefix(a: Seq<Seq<char>>, b: Seq<Seq<char>>, f: Seq<Seq<char>>)
    requires
        a.is_prefix_of(f),
        b.is_prefix_of(f),
        a.len() <= b.len(),
    ensures
        a.is_prefix_of(b),
        a == b.take(a.len() as int),
{
    assert(a =~= f.subrange(0, a.len() as int));
    assert(b =~= f.subrange(0, b.len() as int));
    assert forall|i: int| 0 <= i < a.len() implies a[i] == b[i] by {
        assert(a[i] == f.subrange(0, a.len() as int)[i]);
        assert(b[i] == f.subrange(0, b.len() as int)[i]);
    }
    assert(a =~= b.subrange(0, a.len() as int));
    assert(a =~= b.take(a.len() as int));
}

proof fn lemma_prefix_chain(a: Seq<Seq<char>>, b: Seq<Seq<char>>, c: Seq<Seq<char>>)
    requires
        a.is_prefix_of(b),
        b.is_prefix_of(c),
    ensures
        a.is_prefix_of(c),
{
    assert forall|i: int| 0 <= i < a.len() implies a[i] == c[i] by {
        assert(a[i] == b.subrange(0, a.len() as int)[i]);
        assert(b[i] == c.subrange(0, b.len() as int)[i]);
    }
    assert(a =~= c.subrange(0, a.len() as int));
}

proof fn lemma_take_is_prefix(f: Seq<Seq<char>>, k: int)
    requires
        0 <= k <= f.len(),
    ensures
        f.take(k).is_prefix_of(f),
        f.take(k).len() == k,
{
    assert(f.take(k) =~= f.subrange(0, k));
}

proof fn lemma_prefix_is_take(a: Seq<Seq<char>>, f: Seq<Seq<char>>)
    requires
        a.is_prefix_of(f),
    ensures
        a == f.take(a.len() as int),
{
    assert(a =~= f.take(a.len() as int));
}

proof fn lemma_in_directory(dir: Seq<Seq<char>>, f: Seq<Seq<char>>)
    requires
        f.len() > 0,
    ensures
        dir.is_prefix_of(f.drop_last()) == (dir.is_prefix_of(f) && dir.len() < f.len()),
{
    let d = f.drop_last();
    if dir.len() <= d.len() {
        assert(d.subrange(0, dir.len() as int) =~= f.subrange(0, dir.len() as int));
    }
}

/// A rule accepts none of the path's beginnings beneath home, nor the path.
pub open spec fn unhit(path: Seq<Seq<char>>, rules: Seq<RuleView>, home: Seq<char>) -> bool {
    forall|k: int|
        parts(home).len() < k <= path.len() ==> !#[trigger] hit_at(rules, path.take(k), home)
}

/// A rule accepts a directory above the path, beneath home.
pub open spec fn inner(path: Seq<Seq<char>>, rules: Seq<RuleView>, home: Seq<char>) -> bool {
    exists|k: int|
        parts(home).len() < k < path.len() && #[trigger] hit_at(rules, path.take(k), home)
}

// ---------------------------------------------------------------------------
// Matched bytes, counted both ways
// ---------------------------------------------------------------------------
/// What a file adds to the counted entries that a directory holds.
spec fn added(tops: Seq<EntryView>, dir: Seq<Seq<char>>, f: FileView) -> nat
    decreases tops.len(),
{
    if tops.len() == 0 {
        0
    } else {
        added(tops.drop_last(), dir, f) + if meets(tops.last(), dir, f) {
            f.size as nat
        } else {
            0
        }
    }
}

/// The entry lies between a directory and a file.
spec fn meets(e: EntryView, dir: Seq<Seq<char>>, f: FileView) -> bool {
    holds(dir, parts(e.path)) && parts(e.path).is_prefix_of(f.parts)
}

/// The bytes that the counted entries of a directory hold of some files.
spec fn cover(tops: Seq<EntryView>, files: Seq<FileView>, dir: Seq<Seq<char>>) -> nat
    decreases tops.len(),
{
    if tops.len() == 0 {
        0
    } else {
        cover(tops.drop_last(), files, dir) + if holds(dir, parts(tops.last().path)) {
            held_at(files, parts(tops.last().path))
        } else {
            0
        }
    }
}

proof fn lemma_cover_is_covered(tops: Seq<EntryView>, files: Seq<FileView>, dir: Seq<Seq<char>>)
    requires
        forall|i: int|
            0 <= i < tops.len() ==> (#[trigger] tops[i]).size_bytes == held_at(
                files,
                parts(tops[i].path),
            ),
    ensures
        cover(tops, files, dir) == covered(tops, dir),
    decreases tops.len(),
{
    if tops.len() > 0 {
        let d = tops.drop_last();
        assert forall|i: int| 0 <= i < d.len() implies (#[trigger] d[i]).size_bytes == held_at(
            files,
            parts(d[i].path),
        ) by {
            assert(d[i] == tops[i]);
        }
        lemma_cover_is_covered(d, files, dir);
        assert(tops.last() == tops[tops.len() - 1]);
    }
}

proof fn lemma_cover_push(
    tops: Seq<EntryView>,
    files: Seq<FileView>,
    f: FileView,
    dir: Seq<Seq<char>>,
)
    ensures
        cover(tops, files.push(f), dir) == cover(tops, files, dir) + added(tops, dir, f),
    decreases tops.len(),
{
    if tops.len() > 0 {
        lemma_cover_push(tops.drop_last(), files, f, dir);
        assert(files.push(f).drop_last() =~= files);
    }
}

proof fn lemma_cover_nothing(tops: Seq<EntryView>, dir: Seq<Seq<char>>)
    ensures
        cover(tops, Seq::empty(), dir) == 0,
    decreases tops.len(),
{
    if tops.len() > 0 {
        lemma_cover_nothing(tops.drop_last(), dir);
    }
}

proof fn lemma_added_none(tops: Seq<EntryView>, dir: Seq<Seq<char>>, f: FileView)
    requires
        forall|i: int| 0 <= i < tops.len() ==> !meets(#[trigger] tops[i], dir, f),
    ensures
        added(tops, dir, f) == 0,
    decreases tops.len(),
{
    if tops.len() > 0 {
        let d = tops.drop_last();
        assert forall|i: int| 0 <= i < d.len() implies !meets(#[trigger] d[i], dir, f) by {
            assert(d[i] == tops[i]);
        }
        lemma_added_none(d, dir, f);
        assert(tops.last() == tops[tops.len() - 1]);
    }
}

proof fn lemma_added_one(tops: Seq<EntryView>, dir: Seq<Seq<char>>, f: FileView, q: int)
    requires
        0 <= q < tops.len(),
        meets(tops[q], dir, f),
        forall|i: int| 0 <= i < tops.len() && i != q ==> !meets(#[trigger] tops[i], dir, f),
    ensures
        added(tops, dir, f) == f.size,
    decreases tops.len(),
{
    let d = tops.drop_last();
    assert(tops.last() == tops[tops.len() - 1]);
    if q == tops.len() - 1 {
        assert forall|i: int| 0 <= i < d.len() implies !meets(#[trigger] d[i], dir, f) by {
            assert(d[i] == tops[i]);
        }
        lemma_added_none(d, dir, f);
    } else {
        assert forall|i: int| 0 <= i < d.len() && i != q implies !meets(
            #[trigger] d[i],
            dir,
            f,
        ) by {
            assert(d[i] == tops[i]);
        }
        assert(d[q] == tops[q]);
        lemma_added_one(d, dir, f, q);
    }
}

proof fn lemma_held_at_least(files: Seq<FileView>, path: Seq<Seq<char>>, i: int)
    requires
        0 <= i < files.len(),
        path.is_prefix_of(files[i].parts),
    ensures
        held_at(files, path) >= files[i].size,
    decreases files.len(),
{
    if i < files.len() - 1 {
        assert(files.drop_last()[i] == files[i]);
        lemma_held_at_least(files.drop_last(), path, i);
    }
}

/// What is known of the counted entries: they are entries, none beneath another, and every entry
/// with bytes lies at or beneath one.
proof fn lemma_tops(
    entries: Seq<EntryView>,
    files: Seq<FileView>,
    rules: Seq<RuleView>,
    home: Seq<char>,
)
    requires
        lists_matches(entries, files, rules, home),
    ensures
        ({
            let tops = top_level(entries);
            &&& forall|i: int|
                0 <= i < tops.len() ==> {
                    let p = parts((#[trigger] tops[i]).path);
                    below(p, parts(home)) && hit_at(rules, p, home) && tops[i].size_bytes
                        == held_at(files, p)
                }
            &&& forall|a: int, b: int|
                0 <= a < tops.len() && 0 <= b < tops.len() && a != b ==> !under(
                    (#[trigger] tops[a]).path,
                    (#[trigger] tops[b]).path,
                )
            &&& forall|p: int|
                0 <= p < entries.len() && entries[p].size_bytes > 0 ==> sheltered(
                    #[trigger] entries[p],
                    tops,
                )
        }),
{
    let tops = top_level(entries);
    assert forall|i: int| 0 <= i < tops.len() implies {
        let p = parts((#[trigger] tops[i]).path);
        below(p, parts(home)) && hit_at(rules, p, home) && tops[i].size_bytes == held_at(files, p)
    } by {
        lemma_top_level(entries, i);
        let q = choose|q: int| 0 <= q < entries.len() && entries[q] == tops[i];
        assert(hit_at(rules, parts(entries[q].path), home));
    }
    assert forall|p: int| 0 <= p < entries.len() && entries[p].size_bytes > 0 implies sheltered(
        #[trigger] entries[p],
        tops,
    ) by {
        matched_bytes_count_once(entries, p);
    }
    assert forall|a: int, b: int|
        0 <= a < tops.len() && 0 <= b < tops.len() && a != b implies !under(
        (#[trigger] tops[a]).path,
        (#[trigger] tops[b]).path,
    ) by {
        lemma_top_level(entries, a);
        let q = choose|q: int| 0 <= q < entries.len() && entries[q] == tops[a];
        matched_bytes_count_once(entries, q);
    }
}

/// What a file adds to the entries of a directory that no rule accepts, nor one above it: all of
/// it where a rule matches it beneath the directory, else nothing.
proof fn lemma_added(
    entries: Seq<EntryView>,
    files: Seq<FileView>,
    rules: Seq<RuleView>,
    home: Seq<char>,
    dir: Seq<Seq<char>>,
    i: int,
)
    requires
        is_tree(files, rules, home),
        lists_matches(entries, files, rules, home),
        parts(home).len() > 0,
        is_dir(files, parts(home), dir),
        unhit(dir, rules, home),
        0 <= i < files.len(),
    ensures
        added(top_level(entries), dir, files[i]) == file_share(files[i], dir, true),
{
    let tops = top_level(entries);
    let (f, h) = (files[i], parts(home));
    lemma_tops(entries, files, rules, home);
    lemma_in_directory(dir, f.parts);
    assert(h.is_prefix_of(dir) && dir.len() > 0);
    if exists|q: int| 0 <= q < tops.len() && meets(#[trigger] tops[q], dir, f) {
        let q = choose|q: int| 0 <= q < tops.len() && meets(#[trigger] tops[q], dir, f);
        let t = parts(tops[q].path);
        lemma_prefix_chain(dir, t, f.parts);
        lemma_prefix_is_take(t, f.parts);
        assert(hit_at(rules, f.parts.take(t.len() as int), home));
        assert(rule_reaches(rules, f.parts, home));
        assert(f.ruled);
        assert(dir.len() < f.parts.len()) by {
            let g = choose|g: int|
                0 <= g < files.len() && dir.len() < (#[trigger] files[g]).parts.len()
                    && dir.is_prefix_of(files[g].parts);
            if dir.len() >= f.parts.len() {
                assert(dir =~= f.parts.subrange(0, dir.len() as int));
                assert(f.parts =~= dir);
                assert(!files[i].parts.is_prefix_of(files[g].parts));
            }
        }
        assert forall|a: int| 0 <= a < tops.len() && a != q implies !meets(
            #[trigger] tops[a],
            dir,
            f,
        ) by {
            if meets(tops[a], dir, f) {
                let s = parts(tops[a].path);
                if s.len() <= t.len() {
                    lemma_shorter_prefix(s, t, f.parts);
                    assert(under(tops[q].path, tops[a].path));
                } else {
                    lemma_shorter_prefix(t, s, f.parts);
                    assert(under(tops[a].path, tops[q].path));
                }
            }
        }
        lemma_added_one(tops, dir, f, q);
    } else {
        lemma_added_none(tops, dir, f);
        if dir.is_prefix_of(f.parts.drop_last()) && f.ruled {
            let k = choose|k: int|
                shortest(f.parts, h) <= k <= f.parts.len() && #[trigger] hit_at(
                    rules,
                    f.parts.take(k),
                    home,
                );
            let p = f.parts.take(k);
            lemma_take_is_prefix(f.parts, k);
            if k <= dir.len() {
                lemma_shorter_prefix(p, dir, f.parts);
                assert(hit_at(rules, dir.take(k), home));
            }
            lemma_held_at_least(files, p, i);
            lemma_shorter_prefix(h, p, f.parts);
            assert(below(p, h));
            let e = choose|e: int| 0 <= e < entries.len() && parts((#[trigger] entries[e]).path) == p;
            assert(entries[e].size_bytes == held_at(files, p));
            assert(sheltered(entries[e], tops));
            let q = choose|q: int| 0 <= q < tops.len() && under(
                entries[e].path,
                (#[trigger] tops[q]).path,
            );
            let t = parts(tops[q].path);
            lemma_prefix_chain(t, p, f.parts);
            if t.len() <= dir.len() {
                lemma_shorter_prefix(t, dir, f.parts);
                assert(hit_at(rules, dir.take(t.len() as int), home));
            }
            lemma_shorter_prefix(dir, t, f.parts);
            assert(meets(tops[q], dir, f));
        }
    }
}

proof fn lemma_cover(
    entries: Seq<EntryView>,
    files: Seq<FileView>,
    rules: Seq<RuleView>,
    home: Seq<char>,
    dir: Seq<Seq<char>>,
    k: int,
)
    requires
        is_tree(files, rules, home),
        lists_matches(entries, files, rules, home),
        parts(home).len() > 0,
        is_dir(files, parts(home), dir),
        unhit(dir, rules, home),
        0 <= k <= files.len(),
    ensures
        cover(top_level(entries), files.take(k), dir) == file_bytes(files.take(k), dir, true),
    decreases k,
{
    let tops = top_level(entries);
    if k == 0 {
        assert(files.take(0) =~= Seq::<FileView>::empty());
        lemma_cover_nothing(tops, dir);
    } else {
        lemma_cover(entries, files, rules, home, dir, k - 1);
        lemma_added(entries, files, rules, home, dir, k - 1);
        assert(files.take(k) =~= files.take(k - 1).push(files[k - 1]));
        assert(files.take(k).drop_last() =~= files.take(k - 1));
        lemma_cover_push(tops, files.take(k - 1), files[k - 1], dir);
    }
}

/// Where rules accept neither a directory nor one above it, the counted entries hold just the
/// matched bytes beneath it.
proof fn lemma_unhit_covered(
    entries: Seq<EntryView>,
    files: Seq<FileView>,
    rules: Seq<RuleView>,
    home: Seq<char>,
    dir: Seq<Seq<char>>,
)
    requires
        is_tree(files, rules, home),
        lists_matches(entries, files, rules, home),
        parts(home).len() > 0,
        is_dir(files, parts(home), dir),
        unhit(dir, rules, home),
    ensures
        covered(top_level(entries), dir) == file_bytes(files, dir, true),
{
    lemma_cover(entries, files, rules, home, dir, files.len() as int);
    assert(files.take(files.len() as int) =~= files);
    lemma_tops(entries, files, rules, home);
    lemma_cover_is_covered(top_level(entries), files, dir);
}

proof fn lemma_covered_at_least(tops: Seq<EntryView>, dir: Seq<Seq<char>>, q: int)
    requires
        0 <= q < tops.len(),
        holds(dir, parts(tops[q].path)),
    ensures
        covered(tops, dir) >= tops[q].size_bytes,
    decreases tops.len(),
{
    if q < tops.len() - 1 {
        assert(tops.drop_last()[q] == tops[q]);
        lemma_covered_at_least(tops.drop_last(), dir, q);
    }
}

/// A directory holds all that is at or beneath it.
proof fn lemma_held_is_bytes(
    files: Seq<FileView>,
    rules: Seq<RuleView>,
    home: Seq<char>,
    dir: Seq<Seq<char>>,
    k: int,
)
    requires
        is_tree(files, rules, home),
        is_dir(files, parts(home), dir),
        0 <= k <= files.len(),
    ensures
        held_at(files.take(k), dir) == file_bytes(files.take(k), dir, false),
    decreases k,
{
    if k > 0 {
        lemma_held_is_bytes(files, rules, home, dir, k - 1);
        let f = files[k - 1];
        assert(files.take(k).drop_last() =~= files.take(k - 1));
        assert(files.take(k).last() == f);
        lemma_in_directory(dir, f.parts);
        if dir.is_prefix_of(f.parts) && dir.len() >= f.parts.len() {
            let g = choose|g: int|
                0 <= g < files.len() && dir.len() < (#[trigger] files[g]).parts.len()
                    && dir.is_prefix_of(files[g].parts);
            assert(f.parts =~= dir);
            assert(!files[k - 1].parts.is_prefix_of(files[g].parts));
        }
    }
}

/// Beneath a path that a rule accepts every file is matched.
proof fn lemma_all_ruled(
    files: Seq<FileView>,
    rules: Seq<RuleView>,
    home: Seq<char>,
    dir: Seq<Seq<char>>,
    at: int,
    k: int,
)
    requires
        is_tree(files, rules, home),
        parts(home).len() < at <= dir.len(),
        hit_at(rules, dir.take(at), home),
        0 <= k <= files.len(),
    ensures
        file_bytes(files.take(k), dir, true) == file_bytes(files.take(k), dir, false),
    decreases k,
{
    if k > 0 {
        lemma_all_ruled(files, rules, home, dir, at, k - 1);
        let f = files[k - 1];
        assert(files.take(k).drop_last() =~= files.take(k - 1));
        assert(files.take(k).last() == f);
        lemma_in_directory(dir, f.parts);
        if dir.is_prefix_of(f.parts) && dir.len() < f.parts.len() {
            lemma_take_is_prefix(dir, at);
            lemma_prefix_chain(dir.take(at), dir, f.parts);
            lemma_prefix_is_take(dir.take(at), f.parts);
            assert(hit_at(rules, f.parts.take(at), home));
            assert(rule_reaches(rules, f.parts, home));
            assert(f.ruled);
        }
    }
}

/// A directory that a rule accepts, while none above it is accepted, is left with nothing by
/// both counts.
proof fn lemma_hit_left_with_nothing(
    entries: Seq<EntryView>,
    files: Seq<FileView>,
    rules: Seq<RuleView>,
    home: Seq<char>,
    dir: Seq<Seq<char>>,
)
    requires
        is_tree(files, rules, home),
        lists_matches(entries, files, rules, home),
        is_dir(files, parts(home), dir),
        !unhit(dir, rules, home),
        !inner(dir, rules, home),
    ensures
        covered(top_level(entries), dir) >= file_bytes(files, dir, false),
        file_bytes(files, dir, true) == file_bytes(files, dir, false),
{
    let h = parts(home);
    let tops = top_level(entries);
    let k = choose|k: int|
        h.len() < k <= dir.len() && #[trigger] hit_at(rules, dir.take(k), home);
    assert(k == dir.len());
    assert(dir.take(k) =~= dir);
    lemma_all_ruled(files, rules, home, dir, k, files.len() as int);
    lemma_held_is_bytes(files, rules, home, dir, files.len() as int);
    assert(files.take(files.len() as int) =~= files);
    let g = choose|g: int|
        0 <= g < files.len() && dir.len() < (#[trigger] files[g]).parts.len() && dir.is_prefix_of(
            files[g].parts,
        );
    lemma_held_at_least(files, dir, g);
    lemma_tops(entries, files, rules, home);
    assert(below(dir, h) && hit_at(rules, dir, home));
    let e = choose|e: int| 0 <= e < entries.len() && parts((#[trigger] entries[e]).path) == dir;
    assert(entries[e].size_bytes == held_at(files, dir));
    assert(sheltered(entries[e], tops));
    let q = choose|q: int| 0 <= q < tops.len() && under(
        entries[e].path,
        (#[trigger] tops[q]).path,
    );
    let t = parts(tops[q].path);
    lemma_prefix_is_take(t, dir);
    if t.len() < dir.len() {
        assert(hit_at(rules, dir.take(t.len() as int), home));
    }
    assert(t =~= dir);
    assert(dir.is_prefix_of(t)) by {
        assert(t.subrange(0, dir.len() as int) =~= dir);
    }
    lemma_covered_at_least(tops, dir, q);
}

/// A directory that lies beneath no accepted one is left with the same by both counts; and where
/// something is left of it, no rule accepts it.
proof fn lemma_counts_agree(
    entries: Seq<EntryView>,
    files: Seq<FileView>,
    rules: Seq<RuleView>,
    home: Seq<char>,
    dir: Seq<Seq<char>>,
)
    requires
        is_tree(files, rules, home),
        lists_matches(entries, files, rules, home),
        parts(home).len() > 0,
        is_dir(files, parts(home), dir),
        !inner(dir, rules, home),
    ensures
        left_of(file_bytes(files, dir, false), covered(top_level(entries), dir)) == tree_dir(
            files,
            dir,
        ).unruled,
        tree_dir(files, dir).unruled > 0 ==> unhit(dir, rules, home),
{
    if unhit(dir, rules, home) {
        lemma_unhit_covered(entries, files, rules, home, dir);
    } else {
        lemma_hit_left_with_nothing(entries, files, rules, home, dir);
    }
}

// ---------------------------------------------------------------------------
// Drills over two lists
// ---------------------------------------------------------------------------
/// Two lists of the same directories, which agree on the unruled bytes of some; from one of those
/// that reaches the floor only such are drilled into.
spec fn agree(c: Seq<DirView>, u: Seq<DirView>, min: nat, sure: spec_fn(int) -> bool) -> bool {
    &&& c.len() == u.len()
    &&& forall|i: int|
        0 <= i < u.len() ==> (#[trigger] c[i]).parts == u[i].parts && c[i].path == u[i].path
            && c[i].total == u[i].total
    &&& forall|i: int| 0 <= i < u.len() && #[trigger] sure(i) ==> c[i].unruled == u[i].unruled
    &&& forall|i: int, j: int|
        0 <= i < u.len() && 0 <= j < u.len() && sure(i) && u[i].unruled >= min && parent_parts(
            (#[trigger] u[j]).parts,
        ) == Some((#[trigger] u[i]).parts) ==> sure(j)
}

spec fn all_sure(rows: Seq<int>, n: nat, sure: spec_fn(int) -> bool) -> bool {
    forall|k: int| 0 <= k < rows.len() ==> 0 <= #[trigger] rows[k] < n && sure(rows[k])
}

proof fn lemma_same_order(
    c: Seq<DirView>,
    u: Seq<DirView>,
    min: nat,
    sure: spec_fn(int) -> bool,
    picks: Seq<int>,
)
    requires
        agree(c, u, min, sure),
        all_sure(picks, u.len(), sure),
    ensures
        largest_first(c, picks) == largest_first(u, picks),
        all_sure(largest_first(u, picks), u.len(), sure),
{
    assert(falling_keys(c, picks) =~= falling_keys(u, picks)) by {
        assert forall|k: int| 0 <= k < picks.len() implies falling_keys(c, picks)[k]
            == falling_keys(u, picks)[k] by {
            assert(sure(picks[k]));
        }
    }
    lemma_largest_first(u, picks);
    let r = largest_first(u, picks);
    assert forall|k: int| 0 <= k < r.len() implies 0 <= #[trigger] r[k] < u.len() && sure(
        r[k],
    ) by {
        assert(picks.contains(r[k]));
        let q = picks.index_of(r[k]);
        assert(picks[q] == r[k]);
    }
}

proof fn lemma_same_children(
    c: Seq<DirView>,
    u: Seq<DirView>,
    min: nat,
    sure: spec_fn(int) -> bool,
    i: int,
)
    requires
        agree(c, u, min, sure),
        0 <= i < u.len(),
        sure(i),
        u[i].unruled >= min,
    ensures
        big_children(c, i, min) == big_children(u, i, min),
        all_sure(big_children(u, i, min), u.len(), sure),
{
    let (a, b) = (child_flags(c, i, min), child_flags(u, i, min));
    assert(a =~= b) by {
        assert forall|j: int| 0 <= j < u.len() implies a[j] == b[j] by {
            assert(c[j].parts == u[j].parts && c[i].parts == u[i].parts);
            if parent_parts(u[j].parts) == Some(u[i].parts) {
                assert(sure(j));
            }
        }
    }
    lemma_marked(b);
    let m = marked(b);
    assert forall|k: int| 0 <= k < m.len() implies 0 <= #[trigger] m[k] < u.len() && sure(m[k]) by {
        assert(b[m[k]]);
        assert(parent_parts(u[m[k]].parts) == Some(u[i].parts));
    }
    lemma_same_order(c, u, min, sure, m);
}

proof fn lemma_same_drill(
    c: Seq<DirView>,
    u: Seq<DirView>,
    min: nat,
    sure: spec_fn(int) -> bool,
    i: int,
    levels: nat,
)
    requires
        agree(c, u, min, sure),
        0 <= i < u.len(),
        sure(i),
    ensures
        drill(c, i, min, levels) == drill(u, i, min, levels),
        all_sure(drill(u, i, min, levels), u.len(), sure),
    decreases levels, 0nat,
{
    if u[i].unruled >= min {
        lemma_same_children(c, u, min, sure, i);
        let b = big_children(u, i, min);
        if b.len() > 0 && levels > 0 {
            lemma_same_drills(c, u, min, sure, b, (levels - 1) as nat);
        }
    }
}

proof fn lemma_same_drills(
    c: Seq<DirView>,
    u: Seq<DirView>,
    min: nat,
    sure: spec_fn(int) -> bool,
    list: Seq<int>,
    levels: nat,
)
    requires
        agree(c, u, min, sure),
        all_sure(list, u.len(), sure),
    ensures
        drill_all(c, list, min, levels) == drill_all(u, list, min, levels),
        all_sure(drill_all(u, list, min, levels), u.len(), sure),
    decreases levels, list.len(),
{
    if list.len() > 0 {
        let d = list.drop_last();
        let last = list[list.len() - 1];
        assert forall|k: int| 0 <= k < d.len() implies 0 <= #[trigger] d[k] < u.len() && sure(
            d[k],
        ) by {
            assert(d[k] == list[k]);
        }
        lemma_same_drills(c, u, min, sure, d, levels);
        lemma_same_drill(c, u, min, sure, last, levels);
        let (x, y) = (drill_all(u, d, min, levels), drill(u, last, min, levels));
        let r = drill_all(u, list, min, levels);
        assert forall|k: int| 0 <= k < r.len() implies 0 <= #[trigger] r[k] < u.len() && sure(
            r[k],
        ) by {
            if k < x.len() {
                assert(r[k] == x[k]);
            } else {
                assert(r[k] == y[k - x.len()]);
            }
        }
    }
}

proof fn lemma_same_longest(c: Seq<DirView>, u: Seq<DirView>)
    requires
        c.len() == u.len(),
        forall|i: int| 0 <= i < u.len() ==> (#[trigger] c[i]).parts == u[i].parts,
    ensures
        longest(c) == longest(u),
    decreases u.len(),
{
    if u.len() > 0 {
        let (a, b) = (c.drop_last(), u.drop_last());
        assert forall|i: int| 0 <= i < b.len() implies (#[trigger] a[i]).parts == b[i].parts by {
            assert(a[i] == c[i]);
        }
        lemma_same_longest(a, b);
        assert(c[c.len() - 1].parts == u[u.len() - 1].parts);
    }
}

proof fn lemma_same_landings(
    c: Seq<DirView>,
    u: Seq<DirView>,
    home: Seq<Seq<char>>,
    min: nat,
    top: nat,
    sure: spec_fn(int) -> bool,
)
    requires
        agree(c, u, min, sure),
        forall|i: int|
            0 <= i < u.len() && home.is_prefix_of((#[trigger] u[i]).parts) && u[i].parts.len()
                == home.len() + 1 ==> sure(i),
    ensures
        landings(c, home, min, top) == landings(u, home, min, top),
{
    let (a, b) = (seed_flags(c, home), seed_flags(u, home));
    assert(a =~= b) by {
        assert forall|j: int| 0 <= j < u.len() implies a[j] == b[j] by {
            assert(c[j].parts == u[j].parts);
        }
    }
    lemma_marked(b);
    let m = marked(b);
    assert forall|k: int| 0 <= k < m.len() implies 0 <= #[trigger] m[k] < u.len() && sure(m[k]) by {
        assert(b[m[k]]);
        assert(home.is_prefix_of(u[m[k]].parts));
    }
    lemma_same_order(c, u, min, sure, m);
    lemma_same_longest(c, u);
    lemma_same_drills(c, u, min, sure, seeds(u, home), longest(u));
    let rows = found(u, home, min);
    assert(found(c, home, min) == rows);
    lemma_same_order(c, u, min, sure, rows);
    let (x, y) = (landed(c, home, min, top), landed(u, home, min, top));
    assert(x == y);
    assert(landings(c, home, min, top) =~= landings(u, home, min, top)) by {
        assert forall|k: int| 0 <= k < y.len() implies row_of(c[x[k]], home) == row_of(
            u[y[k]],
            home,
        ) by {
            assert(y[k] == largest_first(u, rows)[k]);
            assert(sure(y[k]));
            assert(c[y[k]].parts == u[y[k]].parts);
        }
    }
}

// ---------------------------------------------------------------------------
// Scan and walk
// ---------------------------------------------------------------------------
/// The directories of a scan are listed as they stand where none stands twice.
proof fn lemma_universe(dirs: Seq<DirTotal>, tops: Seq<EntryView>, k: int)
    requires
        0 <= k <= dirs.len(),
        forall|i: int, j: int|
            0 <= i < j < dirs.len() ==> parts((#[trigger] dirs[i]).path@) != parts(
                (#[trigger] dirs[j]).path@,
            ),
    ensures
        universe(dirs.take(k), tops).len() == k,
        forall|i: int|
            0 <= i < k ==> #[trigger] universe(dirs.take(k), tops)[i] == dir_of(
                dirs[i].path@,
                dirs[i].total_bytes,
                tops,
            ),
    decreases k,
{
    if k > 0 {
        lemma_universe(dirs, tops, k - 1);
        assert(dirs.take(k).drop_last() =~= dirs.take(k - 1));
        assert(dirs.take(k).last() == dirs[k - 1]);
        let w = universe(dirs.take(k - 1), tops);
        let d = dir_of(dirs[k - 1].path@, dirs[k - 1].total_bytes, tops);
        lemma_place(w, d.parts);
        let p = place(w, d.parts);
        if p < w.len() {
            assert(w[p] == dir_of(dirs[p].path@, dirs[p].total_bytes, tops));
            assert(parts(dirs[p].path@) != parts(dirs[k - 1].path@));
        }
        assert(with_dir(w, d) == w.push(d));
    }
}

/// A hunt over a live walk and a hunt in a scan of the same tree give the same rows. The scan
/// lists the directories of the walk in the order of their paths, and the paths that rules accept
/// with the bytes at or beneath each; the floor is not zero.
pub proof fn live_hunt_gives_the_rows_of_the_scan(
    files: Seq<FileView>,
    u: Seq<DirView>,
    dirs: Seq<DirTotal>,
    entries: Seq<EntryView>,
    rules: Seq<RuleView>,
    home: Seq<char>,
    min: nat,
    top: nat,
)
    requires
        min > 0,
        parts(home).len() > 0,
        is_tree(files, rules, home),
        tree_dirs(u, files, parts(home)),
        same_dirs(dirs, u),
        lists_matches(entries, files, rules, home),
    ensures
        landings(universe(dirs, top_level(entries)), parts(home), min, top) == landings(
            u,
            parts(home),
            min,
            top,
        ),
{
    let h = parts(home);
    let tops = top_level(entries);
    let c = universe(dirs, tops);
    let sure = |i: int| !inner(u[i].parts, rules, home);
    walk_lists_each_directory_once(u, files, h);
    assert forall|i: int, j: int| 0 <= i < j < dirs.len() implies parts(
        (#[trigger] dirs[i]).path@,
    ) != parts((#[trigger] dirs[j]).path@) by {
        assert(u[i].parts != u[j].parts);
    }
    lemma_universe(dirs, tops, dirs.len() as int);
    assert(dirs.take(dirs.len() as int) =~= dirs);
    assert forall|i: int| 0 <= i < u.len() implies (#[trigger] c[i]).parts == u[i].parts
        && c[i].path == u[i].path && c[i].total == u[i].total && (sure(i) ==> c[i].unruled
        == u[i].unruled) by {
        assert(c[i] == dir_of(dirs[i].path@, dirs[i].total_bytes, tops));
        assert(u[i] == tree_dir(files, u[i].parts));
        if sure(i) {
            lemma_counts_agree(entries, files, rules, home, u[i].parts);
        }
    }
    assert forall|i: int, j: int|
        0 <= i < u.len() && 0 <= j < u.len() && sure(i) && u[i].unruled >= min && parent_parts(
            (#[trigger] u[j]).parts,
        ) == Some((#[trigger] u[i]).parts) implies sure(j) by {
        assert(u[i] == tree_dir(files, u[i].parts));
        lemma_counts_agree(entries, files, rules, home, u[i].parts);
        if inner(u[j].parts, rules, home) {
            let k = choose|k: int|
                h.len() < k < u[j].parts.len() && #[trigger] hit_at(
                    rules,
                    u[j].parts.take(k),
                    home,
                );
            assert(u[j].parts.take(k) =~= u[i].parts.take(k));
            assert(hit_at(rules, u[i].parts.take(k), home));
        }
    }
    lemma_same_landings(c, u, h, min, top, sure);
}

} // verus!
