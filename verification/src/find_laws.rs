//! What holds of what a hunt looks at.

use crate::drill::{
    big_children, drill, drill_all, found, landed, largest_first, lemma_largest_first, longest,
    seed_flags, seeds, unruled_total, DirView, RowView,
};
use crate::drill_laws::lemma_drill_beneath;
use crate::globs::glob_matches;
use crate::hunt::{covered, dir_of, usable};
use crate::model::{EntryView, RuleView};
use crate::order::{lemma_marked, marked};
use crate::paths::{expanded, parts, path_text};
use crate::walk::{
    beneath, file_bytes, has_dir, is_dir, left_of, rule_reaches, tree_dir, tree_dirs, FileView,
    OwnView,
};
use vstd::prelude::*;

verus! {

/// A scan still serves a hunt exactly where it lists directories and is no older than a day.
pub proof fn scans_serve_for_a_day(dirs: nat, scanned_at: i64, now: i64)
    ensures
        usable(dirs, scanned_at, now) <==> dirs > 0 && now - scanned_at <= 86_400_000_000_000,
{
}

/// What rules cover of a directory is what the matched entries in it hold, each once.
pub proof fn covered_bytes_add_up(
    tops: Seq<EntryView>,
    e: EntryView,
    dir: Seq<Seq<char>>,
)
    requires
        dir.len() > 0,
    ensures
        covered(Seq::empty(), dir) == 0,
        dir.is_prefix_of(parts(e.path)) ==> covered(tops.push(e), dir) == covered(tops, dir)
            + e.size_bytes,
        !dir.is_prefix_of(parts(e.path)) ==> covered(tops.push(e), dir) == covered(tops, dir),
{
    assert(tops.push(e).drop_last() =~= tops);
}

/// What no rule covers of a directory is its total without what rules cover, and never less than
/// nothing.
pub proof fn unruled_is_what_is_left(path: Seq<char>, total: u64, tops: Seq<EntryView>, matched: nat)
    ensures
        dir_of(path, total, tops).path == path,
        dir_of(path, total, tops).parts == parts(path),
        dir_of(path, total, tops).total == total,
        covered(tops, parts(path)) <= total ==> dir_of(path, total, tops).unruled + covered(
            tops,
            parts(path),
        ) == total,
        covered(tops, parts(path)) > total ==> dir_of(path, total, tops).unruled == 0,
        matched <= total ==> left_of(total as nat, matched) + matched == total,
        matched > total ==> left_of(total as nat, matched) == 0,
{
}

/// A file beneath home is ruled exactly where the pattern of a rule accepts it or a directory around it
/// beneath home.
pub proof fn files_are_ruled_by_what_is_around_them(
    rules: Seq<RuleView>,
    path: Seq<Seq<char>>,
    home: Seq<char>,
)
    requires
        parts(home).is_prefix_of(path),
    ensures
        rule_reaches(rules, path, home) <==> exists|k: int, r: int|
            #![trigger path.take(k), rules[r]]
            parts(home).len() < k <= path.len() && 0 <= r < rules.len() && glob_matches(
                expanded(rules[r].path_pattern, home),
                path_text(path.take(k)),
            ),
{
    if rule_reaches(rules, path, home) {
        let k = choose|k: int|
            crate::walk::shortest(path, parts(home)) <= k <= path.len()
                && #[trigger] crate::walk::hit_at(rules, path.take(k), home);
        let hits = crate::explain::pattern_hits(rules, path_text(path.take(k)), home);
        crate::check_laws::first_mark_is_the_first(hits);
        let r = crate::explain::first_true(hits)->0 as int;
        assert(hits[r]);
        assert(glob_matches(expanded(rules[r].path_pattern, home), path_text(path.take(k))));
    }
    if exists|k: int, r: int|
        #![trigger path.take(k), rules[r]]
        parts(home).len() < k <= path.len() && 0 <= r < rules.len() && glob_matches(
            expanded(rules[r].path_pattern, home),
            path_text(path.take(k)),
        ) {
        let (k, r) = choose|k: int, r: int|
            #![trigger path.take(k), rules[r]]
            parts(home).len() < k <= path.len() && 0 <= r < rules.len() && glob_matches(
                expanded(rules[r].path_pattern, home),
                path_text(path.take(k)),
            );
        let hits = crate::explain::pattern_hits(rules, path_text(path.take(k)), home);
        assert(hits[r]);
        crate::check_laws::first_mark_is_the_first(hits);
        assert(crate::walk::hit_at(rules, path.take(k), home));
    }
}

/// A directory holds the bytes of every file beneath it, and of the ruled ones among them where those
/// are asked for.
pub proof fn directories_hold_their_files(
    files: Seq<FileView>,
    f: FileView,
    dir: Seq<Seq<char>>,
    ruled: bool,
)
    ensures
        file_bytes(Seq::empty(), dir, ruled) == 0,
        dir.is_prefix_of(f.parts.drop_last()) && (f.ruled || !ruled) ==> file_bytes(
            files.push(f),
            dir,
            ruled,
        ) == file_bytes(files, dir, ruled) + f.size,
        !dir.is_prefix_of(f.parts.drop_last()) || (ruled && !f.ruled) ==> file_bytes(
            files.push(f),
            dir,
            ruled,
        ) == file_bytes(files, dir, ruled),
{
    assert(files.push(f).drop_last() =~= files);
}

proof fn lemma_drill_finds(u: Seq<DirView>, i: int, min: nat, levels: nat)
    requires
        0 <= i < u.len(),
        u[i].unruled >= min,
    ensures
        drill(u, i, min, levels).len() > 0,
    decreases levels,
{
    let list = big_children(u, i, min);
    if list.len() > 0 && levels > 0 {
        let flags = crate::drill::child_flags(u, i, min);
        let m = marked(flags);
        lemma_marked(flags);
        lemma_largest_first(u, m);
        let c = list.last();
        assert(list[list.len() - 1] == c);
        assert(m.contains(c));
        let k = m.index_of(c);
        assert(flags[m[k]]);
        lemma_drill_finds(u, c, min, (levels - 1) as nat);
        assert(drill_all(u, list, min, (levels - 1) as nat) == drill_all(
            u,
            list.drop_last(),
            min,
            (levels - 1) as nat,
        ) + drill(u, c, min, (levels - 1) as nat));
    }
}

proof fn lemma_all_hold(u: Seq<DirView>, list: Seq<int>, min: nat, levels: nat, k: int, j: int)
    requires
        0 <= k < list.len(),
        0 <= j < drill(u, list[k], min, levels).len(),
    ensures
        drill_all(u, list, min, levels).contains(drill(u, list[k], min, levels)[j]),
    decreases list.len(),
{
    let all = drill_all(u, list, min, levels);
    let front = drill_all(u, list.drop_last(), min, levels);
    let row = drill(u, list[k], min, levels)[j];
    if k == list.len() - 1 {
        assert(all[front.len() + j] == row);
    } else {
        assert(list.drop_last()[k] == list[k]);
        lemma_all_hold(u, list.drop_last(), min, levels, k, j);
        let n = front.index_of(row);
        assert(all[n] == row);
    }
}

/// Nothing large is lost: where a hunt shows fewer rows than it may, every directory of home that holds
/// enough has a row at or beneath it.
pub proof fn every_large_directory_has_a_row(
    u: Seq<DirView>,
    home: Seq<Seq<char>>,
    min: nat,
    top: nat,
    i: int,
)
    requires
        0 <= i < u.len(),
        home.is_prefix_of(u[i].parts),
        u[i].parts.len() == home.len() + 1,
        u[i].unruled >= min,
        landed(u, home, min, top).len() < top,
    ensures
        exists|k: int|
            0 <= k < landed(u, home, min, top).len() && u[i].parts.is_prefix_of(
                u[#[trigger] landed(u, home, min, top)[k]].parts,
            ),
{
    let flags = seed_flags(u, home);
    let m = marked(flags);
    let list = seeds(u, home);
    lemma_marked(flags);
    assert(flags[i]);
    assert(m.contains(i));
    lemma_largest_first(u, m);
    assert(list.contains(i));
    let k = list.index_of(i);
    let levels = longest(u);
    lemma_drill_finds(u, i, min, levels);
    lemma_drill_beneath(u, i, min, levels);
    lemma_all_hold(u, list, min, levels, k, 0);
    let row = drill(u, i, min, levels)[0];
    let all = found(u, home, min);
    assert(all.contains(row));
    lemma_largest_first(u, all);
    let rows = largest_first(u, all);
    assert(rows.contains(row));
    let n = rows.index_of(row);
    assert(landed(u, home, min, top)[n] == row);
    assert(u[i].parts.is_prefix_of(u[row].parts));
}

/// The rows of a hunt add up.
pub proof fn rows_add_up(v: Seq<RowView>, r: RowView)
    ensures
        unruled_total(Seq::empty()) == 0,
        unruled_total(v.push(r)) == unruled_total(v) + r.unruled,
{
    assert(v.push(r).drop_last() =~= v);
}

/// What a walk counted for a directory is what it counted for the directories at and beneath it.
pub proof fn walked_bytes_add_up(v: Seq<OwnView>, d: OwnView, dir: Seq<Seq<char>>)
    ensures
        beneath(Seq::empty(), dir, false) == 0 && beneath(Seq::empty(), dir, true) == 0,
        dir.is_prefix_of(d.parts) ==> beneath(v.push(d), dir, false) == beneath(v, dir, false)
            + d.bytes && beneath(v.push(d), dir, true) == beneath(v, dir, true) + d.matched,
        !dir.is_prefix_of(d.parts) ==> beneath(v.push(d), dir, false) == beneath(v, dir, false)
            && beneath(v.push(d), dir, true) == beneath(v, dir, true),
{
    assert(v.push(d).drop_last() =~= v);
}

proof fn lemma_ruled_is_part(files: Seq<FileView>, dir: Seq<Seq<char>>)
    ensures
        file_bytes(files, dir, true) <= file_bytes(files, dir, false),
    decreases files.len(),
{
    if files.len() > 0 {
        lemma_ruled_is_part(files.drop_last(), dir);
    }
}

/// A walk lists a directory exactly where it lies at or beneath home and a file lies beneath it, with
/// the bytes of the files beneath it, and with those of them that no rule matches.
pub proof fn walks_list_what_holds_files(
    u: Seq<DirView>,
    files: Seq<FileView>,
    home: Seq<Seq<char>>,
    dir: Seq<Seq<char>>,
)
    requires
        tree_dirs(u, files, home),
    ensures
        (exists|i: int| 0 <= i < u.len() && (#[trigger] u[i]).parts == dir) <==> home.is_prefix_of(
            dir,
        ) && exists|k: int|
            0 <= k < files.len() && dir.len() < (#[trigger] files[k]).parts.len()
                && dir.is_prefix_of(files[k].parts),
        forall|i: int|
            0 <= i < u.len() ==> {
                let x = #[trigger] u[i];
                x.path == path_text(x.parts) && x.total == file_bytes(files, x.parts, false)
                    && x.unruled + file_bytes(files, x.parts, true) == x.total
            },
{
    assert(is_dir(files, home, dir) ==> has_dir(u, dir));
    assert forall|i: int| 0 <= i < u.len() implies {
        let x = #[trigger] u[i];
        x.path == path_text(x.parts) && x.total == file_bytes(files, x.parts, false) && x.unruled
            + file_bytes(files, x.parts, true) == x.total
    } by {
        assert(u[i] == tree_dir(files, u[i].parts));
        lemma_ruled_is_part(files, u[i].parts);
    }
    if exists|i: int| 0 <= i < u.len() && (#[trigger] u[i]).parts == dir {
        let i = choose|i: int| 0 <= i < u.len() && (#[trigger] u[i]).parts == dir;
        assert(is_dir(files, home, u[i].parts));
    }
}

} // verus!
