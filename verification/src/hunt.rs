//! The largest directories that no rule covers: what is left of each after the matched bytes
//! beneath it, drilled down to where it concentrates.

use crate::drill::{collect_landings, DirStat, DirUniverse, HuntCandidate};
#[allow(unused_imports)]
use crate::drill::{dir_views, distinct, hunt_views, landings, DirView};
use crate::model::{DirTotal, ScanResult, ScannedEntry};
#[allow(unused_imports)]
use crate::model::{entry_views, EntryView};
use crate::order::{marked_positions, order_of, Key};
#[allow(unused_imports)]
use crate::order::{
    arranged, before, indices, key_less, key_views, lemma_key_less_asymmetric, lemma_marked,
    lemma_stable_order, marked, sorted_stably, stable_order,
};
use crate::paths::{key_of_path, parts_of, parts_start_with, starts_with};
#[allow(unused_imports)]
use crate::paths::{
    lemma_key_names_path, lemma_prefix_between, lemma_prefix_not_later, lemma_under_is_key_prefix,
    lemma_under_reflexive, parts, path_key, under,
};
use crate::text::same;
#[allow(unused_imports)]
use crate::text::views;
use vstd::prelude::*;

verus! {

/// A scan older than this many hours is not hunted in.
pub const CACHE_STALE_AFTER_HOURS: i64 = 24;

/// The floor in bytes.
pub fn min_size_bytes(min_size_mb: u64) -> (r: u64)
    requires
        min_size_mb <= u64::MAX / 1_048_576,
    ensures
        r == min_size_mb * 1_048_576,
{
    min_size_mb * 1_048_576
}

/// A scan can be hunted in where it knows directory totals and is not stale.
pub open spec fn usable(dirs: nat, scanned_at: i64, now: i64) -> bool {
    dirs > 0 && now - scanned_at <= CACHE_STALE_AFTER_HOURS * 3_600_000_000_000
}

pub fn cache_is_usable(scan: &ScanResult, now: i64) -> (r: bool)
    ensures
        r == usable(scan.largest_dirs@.len(), scan.scanned_at, now),
{
    scan.largest_dirs.len() > 0 && now as i128 - scan.scanned_at as i128
        <= CACHE_STALE_AFTER_HOURS as i128 * 3_600_000_000_000
}

// ---------------------------------------------------------------------------
// Matched entries that count
// ---------------------------------------------------------------------------
pub open spec fn sized_flags(v: Seq<EntryView>) -> Seq<bool> {
    v.map_values(|e: EntryView| e.size_bytes > 0)
}

/// The entries with bytes, in the order of their paths.
pub open spec fn by_path(v: Seq<EntryView>) -> Seq<EntryView> {
    let sized = arranged(v, marked(sized_flags(v)));
    sorted_stably(sized, entry_keys(sized))
}

pub open spec fn entry_keys(v: Seq<EntryView>) -> Seq<Seq<Seq<int>>> {
    v.map_values(|e: EntryView| path_key(e.path))
}

/// Of entries in the order of their paths, those that do not lie beneath the one kept before.
pub open spec fn swept(v: Seq<EntryView>) -> Seq<EntryView>
    decreases v.len(),
{
    if v.len() == 0 {
        Seq::empty()
    } else {
        let s = swept(v.drop_last());
        if s.len() > 0 && under(v.last().path, s.last().path) {
            s
        } else {
            s.push(v.last())
        }
    }
}

/// The matched entries that lie beneath no other one; their sizes hold their descendants'.
pub open spec fn top_level(v: Seq<EntryView>) -> Seq<EntryView> {
    swept(by_path(v))
}

fn sized_positions(entries: &Vec<ScannedEntry>) -> (r: Vec<usize>)
    ensures
        indices(r@) == marked(sized_flags(entry_views(entries@))),
        forall|k: int| 0 <= k < r@.len() ==> #[trigger] r@[k] < entries@.len(),
{
    let mut flags: Vec<bool> = Vec::new();
    let mut i: usize = 0;
    while i < entries.len()
        invariant
            i <= entries@.len(),
            flags@.len() == i,
            forall|j: int| 0 <= j < i ==> #[trigger] flags@[j] == (entries@[j].size_bytes > 0),
        decreases entries.len() - i,
    {
        flags.push(entries[i].size_bytes > 0);
        i += 1;
    }
    assert(flags@ =~= sized_flags(entry_views(entries@)));
    marked_positions(&flags)
}

/// The positions of the top-level matched entries, in the order of their paths.
fn top_level_positions(entries: &Vec<ScannedEntry>) -> (r: Vec<usize>)
    ensures
        arranged(entry_views(entries@), indices(r@)) == top_level(entry_views(entries@)),
        forall|k: int| 0 <= k < r@.len() ==> #[trigger] r@[k] < entries@.len(),
{
    let ghost all = entry_views(entries@);
    let sized: Vec<usize> = sized_positions(entries);
    let ghost list = arranged(all, indices(sized@));
    let mut keys: Vec<Key> = Vec::new();
    let mut i: usize = 0;
    while i < sized.len()
        invariant
            i <= sized@.len(),
            all == entry_views(entries@),
            forall|k: int| 0 <= k < sized@.len() ==> #[trigger] sized@[k] < entries@.len(),
            keys@.len() == i,
            forall|j: int|
                0 <= j < i ==> (#[trigger] keys@[j])@ == path_key(all[sized@[j] as int].path),
        decreases sized.len() - i,
    {
        assert(all[sized@[i as int] as int] == entries@[sized@[i as int] as int]@);
        keys.push(key_of_path(entries[sized[i]].path.as_str()));
        i += 1;
    }
    assert(key_views(keys@) =~= entry_keys(list)) by {
        assert forall|j: int| 0 <= j < keys@.len() implies (#[trigger] keys@[j])@ == path_key(
            list[j].path,
        ) by {
            assert(list[j] == all[indices(sized@)[j]]);
        }
    }
    let order: Vec<usize> = order_of(&keys);
    let ghost w = by_path(all);
    assert(indices(order@).len() == order@.len());
    assert(w.len() == order@.len());
    let mut out: Vec<usize> = Vec::new();
    let mut k: usize = 0;
    assert(w.take(0) =~= Seq::<EntryView>::empty());
    assert(arranged(all, indices(out@)) =~= Seq::<EntryView>::empty());
    while k < order.len()
        invariant
            k <= order@.len(),
            all == entry_views(entries@),
            w == by_path(all),
            w.len() == order@.len(),
            list == arranged(all, indices(sized@)),
            w == arranged(list, indices(order@)),
            forall|j: int| 0 <= j < sized@.len() ==> #[trigger] sized@[j] < entries@.len(),
            forall|j: int| 0 <= j < order@.len() ==> #[trigger] order@[j] < sized@.len(),
            forall|j: int| 0 <= j < out@.len() ==> #[trigger] out@[j] < entries@.len(),
            arranged(all, indices(out@)) == swept(w.take(k as int)),
        decreases order.len() - k,
    {
        let at: usize = sized[order[k]];
        proof {
            assert(indices(order@)[k as int] == order@[k as int] as int);
            assert(indices(sized@)[order@[k as int] as int] == at as int);
            assert(w[k as int] == all[at as int]);
            assert(all[at as int] == entries@[at as int]@);
            assert(w.take(k + 1).drop_last() =~= w.take(k as int));
            assert(w.take(k + 1).last() == w[k as int]);
        }
        let ghost was = arranged(all, indices(out@));
        let mut keep: bool = true;
        if out.len() > 0 {
            let last: usize = out[out.len() - 1];
            proof {
                assert(indices(out@).last() == last as int);
                assert(was.last() == entries@[last as int]@);
                assert(was.len() == out@.len());
            }
            if starts_with(entries[at].path.as_str(), entries[last].path.as_str()) {
                keep = false;
            }
        } else {
            assert(was.len() == 0);
        }
        if keep {
            out.push(at);
            assert(arranged(all, indices(out@)) =~= was.push(all[at as int]));
        }
        k += 1;
    }
    assert(w.take(k as int) =~= w);
    out
}

/// The matched entries that lie beneath no other one.
pub fn top_level_matched(entries: &Vec<ScannedEntry>) -> (r: Vec<usize>)
    ensures
        arranged(entry_views(entries@), indices(r@)) == top_level(entry_views(entries@)),
        forall|k: int| 0 <= k < r@.len() ==> #[trigger] r@[k] < entries@.len(),
{
    top_level_positions(entries)
}

/// The first path does not come after the second.
pub open spec fn not_after(a: EntryView, b: EntryView) -> bool {
    path_key(a.path) == path_key(b.path) || key_less(path_key(a.path), path_key(b.path))
}

pub open spec fn ordered(v: Seq<EntryView>) -> bool {
    forall|i: int, j: int| 0 <= i < j < v.len() ==> not_after(#[trigger] v[i], #[trigger] v[j])
}

/// No entry lies at or beneath an earlier one.
pub open spec fn apart(v: Seq<EntryView>) -> bool {
    forall|a: int, b: int|
        0 <= a < b < v.len() ==> !under((#[trigger] v[b]).path, (#[trigger] v[a]).path)
}

pub open spec fn sheltered(e: EntryView, v: Seq<EntryView>) -> bool {
    exists|k: int| 0 <= k < v.len() && under(e.path, (#[trigger] v[k]).path)
}

proof fn lemma_ordered_front(v: Seq<EntryView>)
    requires
        ordered(v),
        v.len() > 0,
    ensures
        ordered(v.drop_last()),
{
    let d = v.drop_last();
    assert forall|i: int, j: int| 0 <= i < j < d.len() implies not_after(
        #[trigger] d[i],
        #[trigger] d[j],
    ) by {
        assert(d[i] == v[i] && d[j] == v[j]);
    }
}

proof fn lemma_swept_members(v: Seq<EntryView>)
    ensures
        forall|k: int| 0 <= k < swept(v).len() ==> v.contains(#[trigger] swept(v)[k]),
    decreases v.len(),
{
    if v.len() > 0 {
        let d = v.drop_last();
        lemma_swept_members(d);
        let (s, r) = (swept(d), swept(v));
        assert forall|k: int| 0 <= k < r.len() implies v.contains(#[trigger] r[k]) by {
            if k < s.len() {
                assert(r[k] == s[k]);
                let p = choose|p: int| 0 <= p < d.len() && d[p] == s[k];
                assert(v[p] == r[k]);
            } else {
                assert(v[v.len() - 1] == r[k]);
            }
        }
    }
}

proof fn lemma_swept_shelters(v: Seq<EntryView>)
    ensures
        forall|i: int| 0 <= i < v.len() ==> sheltered(#[trigger] v[i], swept(v)),
    decreases v.len(),
{
    if v.len() > 0 {
        let d = v.drop_last();
        lemma_swept_shelters(d);
        let (s, r) = (swept(d), swept(v));
        assert forall|i: int| 0 <= i < v.len() implies sheltered(#[trigger] v[i], r) by {
            if i < d.len() {
                assert(d[i] == v[i]);
                assert(sheltered(d[i], s));
                let k = choose|k: int| 0 <= k < s.len() && under(d[i].path, (#[trigger] s[k]).path);
                assert(r[k] == s[k]);
            } else if r.len() > s.len() {
                lemma_under_reflexive(v[i].path);
                assert(r[r.len() - 1] == v[i]);
            } else {
                assert(r[s.len() - 1] == s.last());
            }
        }
    }
}

proof fn lemma_swept_apart(v: Seq<EntryView>)
    requires
        ordered(v),
    ensures
        apart(swept(v)),
        ordered(swept(v)),
    decreases v.len(),
{
    if v.len() > 0 {
        let d = v.drop_last();
        lemma_ordered_front(v);
        lemma_swept_apart(d);
        lemma_swept_members(d);
        let (s, r) = (swept(d), swept(v));
        let e = v.last();
        if r.len() > s.len() {
            assert forall|a: int| 0 <= a < s.len() implies not_after(#[trigger] s[a], e) by {
                let p = choose|p: int| 0 <= p < d.len() && d[p] == s[a];
                assert(v[p] == s[a] && v[v.len() - 1] == e);
            }
            assert forall|a: int, b: int| 0 <= a < b < r.len() implies not_after(
                #[trigger] r[a],
                #[trigger] r[b],
            ) by {
                assert(r[a] == s[a]);
                if b < s.len() {
                    assert(r[b] == s[b]);
                }
            }
            assert forall|a: int, b: int| 0 <= a < b < r.len() implies !under(
                (#[trigger] r[b]).path,
                (#[trigger] r[a]).path,
            ) by {
                assert(r[a] == s[a]);
                if b < s.len() {
                    assert(r[b] == s[b]);
                } else if under(e.path, s[a].path) {
                    let last = s[s.len() - 1];
                    lemma_under_is_key_prefix(e.path, s[a].path);
                    assert(a < s.len() - 1 ==> not_after(s[a], last));
                    assert(not_after(last, e));
                    lemma_prefix_between(
                        path_key(s[a].path),
                        path_key(last.path),
                        path_key(e.path),
                    );
                    lemma_under_is_key_prefix(last.path, s[a].path);
                }
            }
        }
    }
}

proof fn lemma_by_path(v: Seq<EntryView>)
    ensures
        ordered(by_path(v)),
        forall|p: int|
            0 <= p < v.len() && v[p].size_bytes > 0 ==> by_path(v).contains(#[trigger] v[p]),
        forall|i: int|
            0 <= i < by_path(v).len() ==> v.contains(#[trigger] by_path(v)[i]) && by_path(
                v,
            )[i].size_bytes > 0,
{
    let flags = sized_flags(v);
    lemma_marked(flags);
    let m = marked(flags);
    let list = arranged(v, m);
    let keys = entry_keys(list);
    lemma_stable_order(keys);
    let o = stable_order(keys);
    let w = by_path(v);
    assert forall|i: int, j: int| 0 <= i < j < w.len() implies not_after(
        #[trigger] w[i],
        #[trigger] w[j],
    ) by {
        assert(before(keys, o[i], o[j]));
        assert(w[i] == list[o[i]] && w[j] == list[o[j]]);
        assert(keys[o[i]] == path_key(list[o[i]].path) && keys[o[j]] == path_key(list[o[j]].path));
    }
    assert forall|p: int| 0 <= p < v.len() && v[p].size_bytes > 0 implies w.contains(
        #[trigger] v[p],
    ) by {
        assert(flags[p]);
        assert(m.contains(p));
        let k = choose|k: int| 0 <= k < m.len() && m[k] == p;
        assert(o.contains(k));
        let i = choose|i: int| 0 <= i < o.len() && o[i] == k;
        assert(w[i] == v[p]);
    }
    assert forall|i: int| 0 <= i < w.len() implies v.contains(#[trigger] w[i])
        && w[i].size_bytes > 0 by {
        assert(w[i] == list[o[i]]);
        assert(list[o[i]] == v[m[o[i]]]);
        assert(flags[m[o[i]]]);
    }
}

/// What counts is an entry with bytes.
pub proof fn lemma_top_level(v: Seq<EntryView>, k: int)
    requires
        0 <= k < top_level(v).len(),
    ensures
        v.contains(top_level(v)[k]),
        top_level(v)[k].size_bytes > 0,
{
    let w = by_path(v);
    lemma_by_path(v);
    lemma_swept_members(w);
    assert(w.contains(top_level(v)[k]));
    let i = choose|i: int| 0 <= i < w.len() && w[i] == top_level(v)[k];
    assert(v.contains(w[i]));
}

/// Every matched entry with bytes lies at or beneath a counted one, and no counted one beneath
/// another: each matched byte counts once.
pub proof fn matched_bytes_count_once(v: Seq<EntryView>, p: int)
    requires
        0 <= p < v.len(),
        v[p].size_bytes > 0,
    ensures
        sheltered(v[p], top_level(v)),
        forall|a: int, b: int|
            0 <= a < top_level(v).len() && 0 <= b < top_level(v).len() && a != b ==> !under(
                (#[trigger] top_level(v)[a]).path,
                (#[trigger] top_level(v)[b]).path,
            ),
{
    lemma_by_path(v);
    let w = by_path(v);
    lemma_swept_shelters(w);
    lemma_swept_apart(w);
    assert(w.contains(v[p]));
    let t = top_level(v);
    assert forall|a: int, b: int|
        0 <= a < t.len() && 0 <= b < t.len() && a != b implies !under(
        (#[trigger] t[a]).path,
        (#[trigger] t[b]).path,
    ) by {
        if a < b && under(t[a].path, t[b].path) {
            lemma_under_is_key_prefix(t[a].path, t[b].path);
            lemma_prefix_not_later(path_key(t[b].path), path_key(t[a].path));
            assert(not_after(t[a], t[b]));
            if path_key(t[b].path) != path_key(t[a].path) {
                lemma_key_less_asymmetric(path_key(t[b].path), path_key(t[a].path));
            } else {
                lemma_key_names_path(t[a].path, t[b].path);
                lemma_under_reflexive(t[a].path);
                assert(under(t[b].path, t[a].path));
            }
        }
    }
}

// ---------------------------------------------------------------------------
// The directories of a scan
// ---------------------------------------------------------------------------
/// `dir` is the path of an entry or one of its ancestors.
pub open spec fn holds(dir: Seq<Seq<char>>, path: Seq<Seq<char>>) -> bool {
    dir.is_prefix_of(path) && !(dir.len() == 0 && path.len() > 0 && path[0] == seq!['/'])
}

/// The bytes of the entries that a directory holds.
pub open spec fn covered(tops: Seq<EntryView>, dir: Seq<Seq<char>>) -> nat
    decreases tops.len(),
{
    if tops.len() == 0 {
        0
    } else {
        covered(tops.drop_last(), dir) + if holds(dir, parts(tops.last().path)) {
            tops.last().size_bytes as nat
        } else {
            0
        }
    }
}

/// A directory of a scan with what the matched entries leave of it.
pub open spec fn dir_of(path: Seq<char>, total: u64, tops: Seq<EntryView>) -> DirView {
    let c = covered(tops, parts(path));
    DirView {
        path,
        parts: parts(path),
        total: total as nat,
        unruled: if total >= c {
            (total - c) as nat
        } else {
            0
        },
    }
}

/// The position of a directory in a list, or its length.
pub open spec fn place(u: Seq<DirView>, dir: Seq<Seq<char>>) -> int
    decreases u.len(),
{
    if u.len() == 0 {
        0
    } else {
        let p = place(u.drop_last(), dir);
        if p < u.len() - 1 {
            p
        } else if u.last().parts == dir {
            u.len() - 1
        } else {
            u.len() as int
        }
    }
}

/// A list with a directory in it: a later one replaces an earlier one of the same path.
pub open spec fn with_dir(u: Seq<DirView>, d: DirView) -> Seq<DirView> {
    let p = place(u, d.parts);
    if p < u.len() {
        u.update(p, DirView { path: u[p].path, ..d })
    } else {
        u.push(d)
    }
}

/// The directories of a scan, each once.
pub open spec fn universe(dirs: Seq<DirTotal>, tops: Seq<EntryView>) -> Seq<DirView>
    decreases dirs.len(),
{
    if dirs.len() == 0 {
        Seq::empty()
    } else {
        with_dir(
            universe(dirs.drop_last(), tops),
            dir_of(dirs.last().path@, dirs.last().total_bytes, tops),
        )
    }
}

pub proof fn lemma_place(u: Seq<DirView>, dir: Seq<Seq<char>>)
    ensures
        0 <= place(u, dir) <= u.len(),
        place(u, dir) < u.len() ==> u[place(u, dir)].parts == dir,
        forall|i: int| 0 <= i < place(u, dir) ==> (#[trigger] u[i]).parts != dir,
    decreases u.len(),
{
    if u.len() > 0 {
        let d = u.drop_last();
        lemma_place(d, dir);
        assert forall|i: int| 0 <= i < place(u, dir) implies (#[trigger] u[i]).parts != dir by {
            if i < place(d, dir) {
                assert(d[i] == u[i]);
            }
        }
        if place(d, dir) < d.len() {
            assert(d[place(d, dir)] == u[place(d, dir)]);
        }
    }
}

/// A scan's directories are listed once each.
pub proof fn scan_lists_each_directory_once(dirs: Seq<DirTotal>, tops: Seq<EntryView>)
    ensures
        distinct(universe(dirs, tops)),
    decreases dirs.len(),
{
    if dirs.len() > 0 {
        scan_lists_each_directory_once(dirs.drop_last(), tops);
        let u = universe(dirs.drop_last(), tops);
        let d = dir_of(dirs.last().path@, dirs.last().total_bytes, tops);
        let p = place(u, d.parts);
        lemma_place(u, d.parts);
        let w = with_dir(u, d);
        assert forall|i: int, j: int| 0 <= i < j < w.len() implies (#[trigger] w[i]).parts
            != (#[trigger] w[j]).parts by {
            if p < u.len() {
                assert(w[i].parts == u[i].parts && w[j].parts == u[j].parts);
            } else if j < u.len() {
                assert(w[i] == u[i] && w[j] == u[j]);
            } else {
                assert(w[i] == u[i]);
            }
        }
    }
}

fn dir_holds(dir: &Vec<String>, path: &Vec<String>) -> (r: bool)
    ensures
        r == holds(views(dir@), views(path@)),
{
    let ghost d = views(dir@);
    let ghost p = views(path@);
    assert(d.len() == dir@.len() && p.len() == path@.len());
    if dir.len() == 0 && path.len() > 0 {
        proof {
            reveal_strlit("/");
            assert("/"@ =~= seq!['/']);
            assert(p[0] == path@[0]@);
        }
        if same(path[0].as_str(), "/") {
            return false;
        }
    }
    parts_start_with(path, dir)
}

fn covered_bytes(
    entries: &Vec<ScannedEntry>,
    tops: &Vec<usize>,
    top_parts: &Vec<Vec<String>>,
    dir: &Vec<String>,
) -> (r: u128)
    requires
        forall|k: int| 0 <= k < tops@.len() ==> #[trigger] tops@[k] < entries@.len(),
        top_parts@.len() == tops@.len(),
        forall|k: int|
            0 <= k < tops@.len() ==> views((#[trigger] top_parts@[k])@) == parts(
                entries@[tops@[k] as int].path@,
            ),
    ensures
        r == covered(arranged(entry_views(entries@), indices(tops@)), views(dir@)),
{
    let ghost all = entry_views(entries@);
    let ghost w = arranged(all, indices(tops@));
    let mut sum: u128 = 0;
    let mut k: usize = 0;
    assert(w.take(0) =~= Seq::<EntryView>::empty());
    assert(w.len() == tops@.len());
    while k < tops.len()
        invariant
            k <= tops@.len(),
            all == entry_views(entries@),
            w == arranged(all, indices(tops@)),
            w.len() == tops@.len(),
            forall|j: int| 0 <= j < tops@.len() ==> #[trigger] tops@[j] < entries@.len(),
            top_parts@.len() == tops@.len(),
            forall|j: int|
                0 <= j < tops@.len() ==> views((#[trigger] top_parts@[j])@) == parts(
                    entries@[tops@[j] as int].path@,
                ),
            sum == covered(w.take(k as int), views(dir@)),
            sum <= k * 0xffff_ffff_ffff_ffff,
        decreases tops.len() - k,
    {
        proof {
            assert(w.take(k + 1).drop_last() =~= w.take(k as int));
            assert(w.take(k + 1).last() == w[k as int]);
            assert(w[k as int] == all[indices(tops@)[k as int]]);
            assert(w[k as int] == entries@[tops@[k as int] as int]@);
            assert(k * 0xffff_ffff_ffff_ffff <= 0xffff_ffff_ffff_ffff * 0xffff_ffff_ffff_ffff)
                by (nonlinear_arith)
                requires
                    k <= 0xffff_ffff_ffff_ffff,
            ;
            assert((k + 1) * 0xffff_ffff_ffff_ffff == k * 0xffff_ffff_ffff_ffff
                + 0xffff_ffff_ffff_ffff) by (nonlinear_arith);
        }
        if dir_holds(dir, &top_parts[k]) {
            sum = sum + entries[tops[k]].size_bytes as u128;
        }
        k += 1;
    }
    assert(w.take(k as int) =~= w);
    sum
}

pub(crate) fn same_parts(a: &Vec<String>, b: &Vec<String>) -> (r: bool)
    ensures
        r == (views(a@) == views(b@)),
{
    let ghost x = views(a@);
    let ghost y = views(b@);
    assert(x.len() == a@.len() && y.len() == b@.len());
    let r: bool = a.len() == b.len() && parts_start_with(a, b);
    proof {
        if r {
            assert(x.subrange(0, y.len() as int) =~= x);
        }
        if x == y {
            assert(x.subrange(0, y.len() as int) =~= y);
        }
    }
    r
}

fn find_dir(u: &Vec<DirStat>, dir: &Vec<String>) -> (r: usize)
    ensures
        r == place(dir_views(u@), views(dir@)),
{
    let ghost w = dir_views(u@);
    let ghost q = views(dir@);
    let mut i: usize = 0;
    while i < u.len()
        invariant
            i <= u@.len(),
            w == dir_views(u@),
            q == views(dir@),
            forall|j: int| 0 <= j < i ==> (#[trigger] w[j]).parts != q,
        decreases u.len() - i,
    {
        assert(w[i as int] == u@[i as int]@);
        if same_parts(&u[i].parts, dir) {
            proof {
                lemma_place(w, q);
                let p = place(w, q);
                if p < i {
                    assert(w[p].parts != q);
                } else if p > i {
                    assert(w[i as int].parts != q);
                }
            }
            return i;
        }
        i += 1;
    }
    proof {
        lemma_place(w, q);
        let p = place(w, q);
        if p < w.len() {
            assert(w[p].parts != q);
        }
    }
    i
}

/// The directories of a scan with what the matched entries leave of each.
fn scan_universe(scan: &ScanResult) -> (r: DirUniverse)
    ensures
        r.wf(),
        r@ == universe(scan.largest_dirs@, top_level(entry_views(scan.entries@))),
{
    let ghost tops_view = top_level(entry_views(scan.entries@));
    let tops: Vec<usize> = top_level_matched(&scan.entries);
    let mut top_parts: Vec<Vec<String>> = Vec::new();
    let mut k: usize = 0;
    while k < tops.len()
        invariant
            k <= tops@.len(),
            forall|j: int| 0 <= j < tops@.len() ==> #[trigger] tops@[j] < scan.entries@.len(),
            top_parts@.len() == k,
            forall|j: int|
                0 <= j < k ==> views((#[trigger] top_parts@[j])@) == parts(
                    scan.entries@[tops@[j] as int].path@,
                ),
        decreases tops.len() - k,
    {
        top_parts.push(parts_of(scan.entries[tops[k]].path.as_str()));
        k += 1;
    }
    let mut out: Vec<DirStat> = Vec::new();
    let ghost dirs = scan.largest_dirs@;
    let mut i: usize = 0;
    assert(dirs.take(0) =~= Seq::<DirTotal>::empty());
    assert(dir_views(out@) =~= Seq::<DirView>::empty());
    while i < scan.largest_dirs.len()
        invariant
            i <= scan.largest_dirs@.len(),
            dirs == scan.largest_dirs@,
            tops_view == top_level(entry_views(scan.entries@)),
            arranged(entry_views(scan.entries@), indices(tops@)) == tops_view,
            forall|j: int| 0 <= j < tops@.len() ==> #[trigger] tops@[j] < scan.entries@.len(),
            top_parts@.len() == tops@.len(),
            forall|j: int|
                0 <= j < tops@.len() ==> views((#[trigger] top_parts@[j])@) == parts(
                    scan.entries@[tops@[j] as int].path@,
                ),
            dir_views(out@) == universe(dirs.take(i as int), tops_view),
        decreases scan.largest_dirs.len() - i,
    {
        let d: &DirTotal = &scan.largest_dirs[i];
        let ghost was = dir_views(out@);
        proof {
            assert(dirs.take(i + 1).drop_last() =~= dirs.take(i as int));
            assert(dirs.take(i + 1).last() == *d);
        }
        let dir: Vec<String> = parts_of(d.path.as_str());
        let cov: u128 = covered_bytes(&scan.entries, &tops, &top_parts, &dir);
        let total: u128 = d.total_bytes as u128;
        let unruled: u128 = if total >= cov {
            total - cov
        } else {
            0
        };
        let at: usize = find_dir(&out, &dir);
        let ghost fresh = dir_of(d.path@, d.total_bytes, tops_view);
        proof {
            lemma_place(was, views(dir@));
            assert(was.len() == out@.len());
        }
        if at < out.len() {
            let stat: DirStat = DirStat {
                path: out[at].path.as_str().to_owned(),
                parts: dir,
                total_bytes: total,
                unruled_bytes: unruled,
            };
            assert(was[at as int] == out@[at as int]@);
            out.set(at, stat);
            assert(dir_views(out@) =~= was.update(
                at as int,
                DirView { path: was[at as int].path, ..fresh },
            ));
        } else {
            out.push(
                DirStat {
                    path: d.path.as_str().to_owned(),
                    parts: dir,
                    total_bytes: total,
                    unruled_bytes: unruled,
                },
            );
            assert(dir_views(out@) =~= was.push(fresh));
        }
        i += 1;
    }
    assert(dirs.take(i as int) =~= dirs);
    proof {
        scan_lists_each_directory_once(dirs, tops_view);
    }
    DirUniverse { stats: out }
}

/// Hunts in a scan: the rows over its directories, less what the matched entries cover.
pub fn hunt_from_cache(scan: &ScanResult, home: &str, min_size: u64, top: usize) -> (r: Vec<
    HuntCandidate,
>)
    ensures
        hunt_views(r@) == landings(
            universe(scan.largest_dirs@, top_level(entry_views(scan.entries@))),
            parts(home@),
            min_size as nat,
            top as nat,
        ),
{
    let u: DirUniverse = scan_universe(scan);
    let h: Vec<String> = parts_of(home);
    collect_landings(&u, &h, min_size as u128, top)
}

} // verus!
