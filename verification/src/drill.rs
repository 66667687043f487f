//! Drilling into directories: from a coarse one down to the children where its unruled bytes
//! concentrate.

use crate::order::{marked_positions, order_of, pair_key, Key};
#[allow(unused_imports)]
use crate::order::{
    before, indices, key_less, key_views, lemma_pair_less, lemma_stable_order, marked, pair,
    sorted_stably, stable_order,
};
use crate::paths::parts_start_with;
#[allow(unused_imports)]
use crate::paths::parent_parts;
use crate::text::same;
#[allow(unused_imports)]
use crate::text::views;
use vstd::prelude::*;

verus! {

/// A directory with the bytes beneath it and those of them that no rule covers.
#[derive(Debug)]
pub struct DirStat {
    pub path: String,
    pub parts: Vec<String>,
    pub total_bytes: u128,
    pub unruled_bytes: u128,
}

pub ghost struct DirView {
    pub path: Seq<char>,
    pub parts: Seq<Seq<char>>,
    pub total: nat,
    pub unruled: nat,
}

impl View for DirStat {
    type V = DirView;

    open spec fn view(&self) -> DirView {
        DirView {
            path: self.path@,
            parts: views(self.parts@),
            total: self.total_bytes as nat,
            unruled: self.unruled_bytes as nat,
        }
    }
}

pub open spec fn dir_views(v: Seq<DirStat>) -> Seq<DirView> {
    v.map_values(|d: DirStat| d@)
}

/// No directory stands twice in the list.
pub open spec fn distinct(u: Seq<DirView>) -> bool {
    forall|i: int, j: int| 0 <= i < j < u.len() ==> (#[trigger] u[i]).parts != (#[trigger] u[j]).parts
}

/// The directories that a hunt knows, each once.
#[derive(Debug)]
pub struct DirUniverse {
    pub stats: Vec<DirStat>,
}

impl View for DirUniverse {
    type V = Seq<DirView>;

    open spec fn view(&self) -> Seq<DirView> {
        dir_views(self.stats@)
    }
}

impl DirUniverse {
    pub open spec fn wf(&self) -> bool {
        distinct(self@)
    }
}

// ---------------------------------------------------------------------------
// Sorting by bytes
// ---------------------------------------------------------------------------
/// The larger number first.
pub open spec fn falling_key(n: nat) -> Seq<Seq<int>> {
    pair(
        0xffff_ffff_ffff_ffff - n / 0x1_0000_0000_0000_0000,
        0xffff_ffff_ffff_ffff - n % 0x1_0000_0000_0000_0000,
    )
}

pub open spec fn falling_keys(u: Seq<DirView>, picks: Seq<int>) -> Seq<Seq<Seq<int>>> {
    picks.map_values(|i: int| falling_key(u[i].unruled))
}

/// Positions of directories, the one with the most unruled bytes first.
pub open spec fn largest_first(u: Seq<DirView>, picks: Seq<int>) -> Seq<int> {
    sorted_stably(picks, falling_keys(u, picks))
}

pub fn falling_key_of(n: u128) -> (r: Key)
    ensures
        r@ == falling_key(n as nat),
{
    let hi: u64 = (n / 0x1_0000_0000_0000_0000) as u64;
    let lo: u64 = (n % 0x1_0000_0000_0000_0000) as u64;
    pair_key(0xffff_ffff_ffff_ffff - hi, 0xffff_ffff_ffff_ffff - lo)
}

fn sort_largest(u: &Vec<DirStat>, picks: &Vec<usize>) -> (r: Vec<usize>)
    requires
        forall|k: int| 0 <= k < picks@.len() ==> #[trigger] picks@[k] < u@.len(),
    ensures
        indices(r@) == largest_first(dir_views(u@), indices(picks@)),
        forall|k: int| 0 <= k < r@.len() ==> #[trigger] r@[k] < u@.len(),
{
    let ghost w = dir_views(u@);
    let mut keys: Vec<Key> = Vec::new();
    let mut i: usize = 0;
    while i < picks.len()
        invariant
            i <= picks@.len(),
            w == dir_views(u@),
            forall|k: int| 0 <= k < picks@.len() ==> #[trigger] picks@[k] < u@.len(),
            keys@.len() == i,
            forall|j: int|
                0 <= j < i ==> (#[trigger] keys@[j])@ == falling_key(w[picks@[j] as int].unruled),
        decreases picks.len() - i,
    {
        assert(w[picks@[i as int] as int] == u@[picks@[i as int] as int]@);
        keys.push(falling_key_of(u[picks[i]].unruled_bytes));
        i += 1;
    }
    assert(key_views(keys@) =~= falling_keys(w, indices(picks@))) by {
        assert forall|j: int| 0 <= j < keys@.len() implies (#[trigger] keys@[j])@ == falling_key(
            w[indices(picks@)[j]].unruled,
        ) by {}
    }
    let order: Vec<usize> = order_of(&keys);
    let mut out: Vec<usize> = Vec::new();
    let mut k: usize = 0;
    while k < order.len()
        invariant
            k <= order@.len(),
            forall|j: int| 0 <= j < picks@.len() ==> #[trigger] picks@[j] < u@.len(),
            forall|j: int| 0 <= j < order@.len() ==> #[trigger] order@[j] < picks@.len(),
            out@.len() == k,
            forall|j: int| 0 <= j < k ==> #[trigger] out@[j] == picks@[order@[j] as int],
        decreases order.len() - k,
    {
        out.push(picks[order[k]]);
        k += 1;
    }
    assert(indices(out@) =~= largest_first(w, indices(picks@))) by {
        assert(indices(order@) == stable_order(falling_keys(w, indices(picks@))));
        assert forall|j: int| 0 <= j < out@.len() implies #[trigger] indices(out@)[j] == indices(
            picks@,
        )[indices(order@)[j]] by {}
    }
    out
}

pub proof fn lemma_falling(a: nat, b: nat)
    requires
        a < 0x1_0000_0000_0000_0000 * 0x1_0000_0000_0000_0000,
        b < 0x1_0000_0000_0000_0000 * 0x1_0000_0000_0000_0000,
        falling_key(a) == falling_key(b) || key_less(falling_key(a), falling_key(b)),
    ensures
        a >= b,
{
    lemma_pair_less(
        0xffff_ffff_ffff_ffff - a / 0x1_0000_0000_0000_0000,
        0xffff_ffff_ffff_ffff - a % 0x1_0000_0000_0000_0000,
        0xffff_ffff_ffff_ffff - b / 0x1_0000_0000_0000_0000,
        0xffff_ffff_ffff_ffff - b % 0x1_0000_0000_0000_0000,
    );
}

pub proof fn lemma_largest_first(u: Seq<DirView>, picks: Seq<int>)
    ensures
        largest_first(u, picks).len() == picks.len(),
        forall|k: int|
            0 <= k < picks.len() ==> picks.contains(#[trigger] largest_first(u, picks)[k]),
        forall|p: int|
            picks.contains(p) ==> #[trigger] largest_first(u, picks).contains(p),
        picks.no_duplicates() ==> largest_first(u, picks).no_duplicates(),
{
    let keys = falling_keys(u, picks);
    lemma_stable_order(keys);
    let o = stable_order(keys);
    let r = largest_first(u, picks);
    assert forall|k: int| 0 <= k < picks.len() implies picks.contains(#[trigger] r[k]) by {
        assert(r[k] == picks[o[k]]);
    }
    assert forall|p: int| picks.contains(p) implies #[trigger] r.contains(p) by {
        let q = choose|q: int| 0 <= q < picks.len() && picks[q] == p;
        assert(o.contains(q));
        let k = choose|k: int| 0 <= k < o.len() && o[k] == q;
        assert(r[k] == p);
    }
    if picks.no_duplicates() {
        assert forall|a: int, b: int| 0 <= a < r.len() && 0 <= b < r.len() && a != b implies r[a]
            != r[b] by {
            assert(r[a] == picks[o[a]] && r[b] == picks[o[b]]);
            assert(o[a] != o[b]);
        }
    }
}

// ---------------------------------------------------------------------------
// Children and seeds
// ---------------------------------------------------------------------------
/// The marks of the immediate children of a directory that reach the floor.
pub open spec fn child_flags(u: Seq<DirView>, i: int, min: nat) -> Seq<bool> {
    u.map_values(|d: DirView| parent_parts(d.parts) == Some(u[i].parts) && d.unruled >= min)
}

/// The immediate children of a directory that reach the floor, the largest first.
pub open spec fn big_children(u: Seq<DirView>, i: int, min: nat) -> Seq<int> {
    largest_first(u, marked(child_flags(u, i, min)))
}

/// The marks of the directories one level beneath a base.
pub open spec fn seed_flags(u: Seq<DirView>, home: Seq<Seq<char>>) -> Seq<bool> {
    u.map_values(|d: DirView| home.is_prefix_of(d.parts) && d.parts.len() == home.len() + 1)
}

pub open spec fn seeds(u: Seq<DirView>, home: Seq<Seq<char>>) -> Seq<int> {
    largest_first(u, marked(seed_flags(u, home)))
}

fn is_child_of(d: &DirStat, dir: &DirStat) -> (r: bool)
    ensures
        r == (parent_parts(d@.parts) == Some(dir@.parts)),
{
    let n: usize = d.parts.len();
    let ghost p = d@.parts;
    let ghost q = dir@.parts;
    assert(p.len() == n && q.len() == dir.parts@.len());
    if n == 0 {
        return false;
    }
    proof {
        reveal_strlit("/");
        assert("/"@ =~= seq!['/']);
        assert(p.last() == d.parts@[n - 1]@);
    }
    if same(d.parts[n - 1].as_str(), "/") {
        return false;
    }
    if dir.parts.len() != n - 1 {
        assert(p.drop_last().len() != q.len());
        return false;
    }
    let r: bool = parts_start_with(&d.parts, &dir.parts);
    proof {
        assert(p.drop_last() =~= p.subrange(0, n - 1));
        if r {
            assert(q =~= p.subrange(0, q.len() as int));
        }
    }
    r
}

fn children_of(u: &Vec<DirStat>, i: usize, min: u128) -> (r: Vec<usize>)
    requires
        i < u@.len(),
    ensures
        indices(r@) == big_children(dir_views(u@), i as int, min as nat),
        forall|k: int| 0 <= k < r@.len() ==> #[trigger] r@[k] < u@.len(),
{
    let ghost w = dir_views(u@);
    let mut flags: Vec<bool> = Vec::new();
    let mut j: usize = 0;
    assert(w[i as int] == u@[i as int]@);
    while j < u.len()
        invariant
            i < u@.len(),
            j <= u@.len(),
            w == dir_views(u@),
            w[i as int] == u@[i as int]@,
            flags@.len() == j,
            forall|k: int|
                0 <= k < j ==> #[trigger] flags@[k] == child_flags(w, i as int, min as nat)[k],
        decreases u.len() - j,
    {
        assert(w[j as int] == u@[j as int]@);
        flags.push(is_child_of(&u[j], &u[i]) && u[j].unruled_bytes >= min);
        j += 1;
    }
    assert(flags@ =~= child_flags(w, i as int, min as nat));
    let picks: Vec<usize> = marked_positions(&flags);
    sort_largest(u, &picks)
}

fn seeds_of(u: &Vec<DirStat>, home: &Vec<String>) -> (r: Vec<usize>)
    ensures
        indices(r@) == seeds(dir_views(u@), views(home@)),
        forall|k: int| 0 <= k < r@.len() ==> #[trigger] r@[k] < u@.len(),
{
    let ghost w = dir_views(u@);
    let mut flags: Vec<bool> = Vec::new();
    let mut j: usize = 0;
    while j < u.len()
        invariant
            j <= u@.len(),
            w == dir_views(u@),
            flags@.len() == j,
            forall|k: int| 0 <= k < j ==> #[trigger] flags@[k] == seed_flags(w, views(home@))[k],
        decreases u.len() - j,
    {
        assert(w[j as int] == u@[j as int]@);
        assert(w[j as int].parts.len() == u@[j as int].parts@.len());
        assert(views(home@).len() == home@.len());
        let deep: bool = parts_start_with(&u[j].parts, home);
        flags.push(deep && u[j].parts.len() - home.len() == 1);
        j += 1;
    }
    assert(flags@ =~= seed_flags(w, views(home@)));
    let picks: Vec<usize> = marked_positions(&flags);
    sort_largest(u, &picks)
}

// ---------------------------------------------------------------------------
// The drill
// ---------------------------------------------------------------------------
/// The rows at or beneath a directory: none below the floor; the directory itself where no
/// child reaches the floor; else those of its large children. `levels` bounds the descent.
pub open spec fn drill(u: Seq<DirView>, i: int, min: nat, levels: nat) -> Seq<int>
    decreases levels, 0nat,
{
    if u[i].unruled < min {
        Seq::empty()
    } else if big_children(u, i, min).len() == 0 || levels == 0 {
        seq![i]
    } else {
        drill_all(u, big_children(u, i, min), min, (levels - 1) as nat)
    }
}

/// The rows of several directories, one after the other.
pub open spec fn drill_all(u: Seq<DirView>, list: Seq<int>, min: nat, levels: nat) -> Seq<int>
    decreases levels, list.len(),
{
    if list.len() == 0 {
        Seq::empty()
    } else {
        drill_all(u, list.drop_last(), min, levels) + drill(u, list.last(), min, levels)
    }
}

/// The most components that a directory has.
pub open spec fn longest(u: Seq<DirView>) -> nat
    decreases u.len(),
{
    if u.len() == 0 {
        0
    } else if u.last().parts.len() > longest(u.drop_last()) {
        u.last().parts.len()
    } else {
        longest(u.drop_last())
    }
}

fn longest_of(u: &Vec<DirStat>) -> (r: usize)
    ensures
        r == longest(dir_views(u@)),
{
    let ghost w = dir_views(u@);
    let mut n: usize = 0;
    let mut i: usize = 0;
    assert(w.take(0) =~= Seq::<DirView>::empty());
    while i < u.len()
        invariant
            i <= u@.len(),
            w == dir_views(u@),
            n == longest(w.take(i as int)),
        decreases u.len() - i,
    {
        assert(w.take(i + 1).drop_last() =~= w.take(i as int));
        assert(w.take(i + 1).last() == u@[i as int]@);
        assert(views(u@[i as int].parts@).len() == u@[i as int].parts@.len());
        if u[i].parts.len() > n {
            n = u[i].parts.len();
        }
        i += 1;
    }
    assert(w.take(i as int) =~= w);
    n
}

/// Appends the rows at or beneath a directory.
fn drill_dir(u: &Vec<DirStat>, i: usize, min: u128, levels: usize, out: &mut Vec<usize>)
    requires
        i < u@.len(),
        forall|k: int| 0 <= k < old(out)@.len() ==> #[trigger] old(out)@[k] < u@.len(),
    ensures
        indices(final(out)@) == indices(old(out)@) + drill(
            dir_views(u@),
            i as int,
            min as nat,
            levels as nat,
        ),
        forall|k: int| 0 <= k < final(out)@.len() ==> #[trigger] final(out)@[k] < u@.len(),
    decreases levels,
{
    let ghost w = dir_views(u@);
    let ghost start = indices(out@);
    assert(w[i as int] == u@[i as int]@);
    if u[i].unruled_bytes < min {
        assert(start + Seq::<int>::empty() =~= start);
        return ;
    }
    let list: Vec<usize> = children_of(u, i, min);
    assert(indices(list@).len() == list@.len());
    if list.len() == 0 || levels == 0 {
        out.push(i);
        assert(indices(out@) =~= start + seq![i as int]);
        return ;
    }
    let ghost all = indices(list@);
    let mut k: usize = 0;
    assert(all.take(0) =~= Seq::<int>::empty());
    assert(start + drill_all(w, all.take(0), min as nat, (levels - 1) as nat) =~= start);
    while k < list.len()
        invariant
            k <= list@.len(),
            levels > 0,
            w == dir_views(u@),
            all == indices(list@),
            forall|j: int| 0 <= j < list@.len() ==> #[trigger] list@[j] < u@.len(),
            forall|j: int| 0 <= j < out@.len() ==> #[trigger] out@[j] < u@.len(),
            indices(out@) == start + drill_all(
                w,
                all.take(k as int),
                min as nat,
                (levels - 1) as nat,
            ),
        decreases list.len() - k,
    {
        let ghost before = indices(out@);
        drill_dir(u, list[k], min, levels - 1, out);
        proof {
            assert(all.take(k + 1).drop_last() =~= all.take(k as int));
            assert(all.take(k + 1).last() == list@[k as int] as int);
            assert(indices(out@) =~= start + drill_all(
                w,
                all.take(k + 1),
                min as nat,
                (levels - 1) as nat,
            ));
        }
        k += 1;
    }
    assert(all.take(k as int) =~= all);
}

// ---------------------------------------------------------------------------
// Landings
// ---------------------------------------------------------------------------
/// A directory that a hunt reports.
#[derive(Debug)]
pub struct HuntCandidate {
    pub path: String,
    pub unruled_bytes: u128,
    pub total_bytes: u128,
    pub depth: usize,
}

pub ghost struct RowView {
    pub path: Seq<char>,
    pub unruled: nat,
    pub total: nat,
    pub depth: nat,
}

impl View for HuntCandidate {
    type V = RowView;

    open spec fn view(&self) -> RowView {
        RowView {
            path: self.path@,
            unruled: self.unruled_bytes as nat,
            total: self.total_bytes as nat,
            depth: self.depth as nat,
        }
    }
}

pub open spec fn hunt_views(v: Seq<HuntCandidate>) -> Seq<RowView> {
    v.map_values(|c: HuntCandidate| c@)
}

/// The rows of all seeds.
pub open spec fn found(u: Seq<DirView>, home: Seq<Seq<char>>, min: nat) -> Seq<int> {
    drill_all(u, seeds(u, home), min, longest(u))
}

/// The rows that a hunt reports: the largest `top` of them, the largest first.
pub open spec fn landed(u: Seq<DirView>, home: Seq<Seq<char>>, min: nat, top: nat) -> Seq<int> {
    let rows = largest_first(u, found(u, home, min));
    if rows.len() > top {
        rows.take(top as int)
    } else {
        rows
    }
}

pub open spec fn row_of(d: DirView, home: Seq<Seq<char>>) -> RowView {
    RowView {
        path: d.path,
        unruled: d.unruled,
        total: d.total,
        depth: if home.is_prefix_of(d.parts) {
            (d.parts.len() - home.len()) as nat
        } else {
            1
        },
    }
}

pub open spec fn landings(u: Seq<DirView>, home: Seq<Seq<char>>, min: nat, top: nat) -> Seq<
    RowView,
> {
    landed(u, home, min, top).map_values(|i: int| row_of(u[i], home))
}

/// Selects the rows of a hunt: every directory one level beneath home is drilled into.
pub fn collect_landings(
    universe: &DirUniverse,
    home: &Vec<String>,
    min: u128,
    top: usize,
) -> (r: Vec<HuntCandidate>)
    requires
        universe.wf(),
    ensures
        hunt_views(r@) == landings(universe@, views(home@), min as nat, top as nat),
{
    let u: &Vec<DirStat> = &universe.stats;
    let ghost w = dir_views(u@);
    let ghost h = views(home@);
    let levels: usize = longest_of(u);
    let start: Vec<usize> = seeds_of(u, home);
    let ghost all = indices(start@);
    let mut rows: Vec<usize> = Vec::new();
    let mut k: usize = 0;
    assert(all.take(0) =~= Seq::<int>::empty());
    assert(indices(rows@) =~= Seq::<int>::empty());
    while k < start.len()
        invariant
            k <= start@.len(),
            w == dir_views(u@),
            all == indices(start@),
            levels == longest(w),
            forall|j: int| 0 <= j < start@.len() ==> #[trigger] start@[j] < u@.len(),
            forall|j: int| 0 <= j < rows@.len() ==> #[trigger] rows@[j] < u@.len(),
            indices(rows@) == drill_all(w, all.take(k as int), min as nat, levels as nat),
        decreases start.len() - k,
    {
        drill_dir(u, start[k], min, levels, &mut rows);
        proof {
            assert(all.take(k + 1).drop_last() =~= all.take(k as int));
            assert(all.take(k + 1).last() == start@[k as int] as int);
        }
        k += 1;
    }
    assert(all.take(k as int) =~= all);
    let mut sorted: Vec<usize> = sort_largest(u, &rows);
    let ghost full = indices(sorted@);
    assert(full.len() == sorted@.len());
    if sorted.len() > top {
        sorted.truncate(top);
        assert(indices(sorted@) =~= full.take(top as int));
    }
    let mut out: Vec<HuntCandidate> = Vec::new();
    let mut i: usize = 0;
    while i < sorted.len()
        invariant
            i <= sorted@.len(),
            w == dir_views(u@),
            h == views(home@),
            forall|j: int| 0 <= j < sorted@.len() ==> #[trigger] sorted@[j] < u@.len(),
            out@.len() == i,
            forall|j: int| 0 <= j < i ==> (#[trigger] out@[j])@ == row_of(w[sorted@[j] as int], h),
        decreases sorted.len() - i,
    {
        let d: &DirStat = &u[sorted[i]];
        assert(w[sorted@[i as int] as int] == d@);
        assert(d@.parts.len() == d.parts@.len() && h.len() == home@.len());
        let depth: usize = if parts_start_with(&d.parts, home) {
            d.parts.len() - home.len()
        } else {
            1
        };
        out.push(
            HuntCandidate {
                path: d.path.as_str().to_owned(),
                unruled_bytes: d.unruled_bytes,
                total_bytes: d.total_bytes,
                depth,
            },
        );
        i += 1;
    }
    assert(hunt_views(out@) =~= landings(w, h, min as nat, top as nat)) by {
        assert forall|j: int| 0 <= j < out@.len() implies (#[trigger] out@[j])@ == row_of(
            w[landed(w, h, min as nat, top as nat)[j]],
            h,
        ) by {
            assert(indices(sorted@)[j] == sorted@[j] as int);
        }
    }
    out
}

// ---------------------------------------------------------------------------
// What a report says of its rows
// ---------------------------------------------------------------------------
/// The unruled bytes of a list of rows.
pub open spec fn unruled_total(v: Seq<RowView>) -> nat
    decreases v.len(),
{
    if v.len() == 0 {
        0
    } else {
        unruled_total(v.drop_last()) + v.last().unruled
    }
}

proof fn lemma_unruled_grows(w: Seq<RowView>, k: int)
    requires
        0 <= k <= w.len(),
    ensures
        unruled_total(w.take(k)) <= unruled_total(w),
    decreases w.len() - k,
{
    if k < w.len() {
        lemma_unruled_grows(w, k + 1);
        assert(w.take(k + 1).drop_last() =~= w.take(k));
    } else {
        assert(w.take(k) =~= w);
    }
}

/// The unruled bytes of all rows of a hunt; none where the sum is out of range.
pub fn hunt_total(v: &Vec<HuntCandidate>) -> (r: Option<u128>)
    ensures
        match r {
            Some(t) => t == unruled_total(hunt_views(v@)),
            None => unruled_total(hunt_views(v@)) > u128::MAX,
        },
{
    let ghost w = hunt_views(v@);
    let mut sum: u128 = 0;
    let mut i: usize = 0;
    assert(w.take(0) =~= Seq::empty());
    while i < v.len()
        invariant
            i <= v@.len(),
            w == hunt_views(v@),
            sum == unruled_total(w.take(i as int)),
        decreases v.len() - i,
    {
        assert(w.take(i + 1).drop_last() =~= w.take(i as int));
        assert(w.take(i + 1).last() == v@[i as int]@);
        match sum.checked_add(v[i].unruled_bytes) {
            Some(t) => {
                sum = t;
            },
            None => {
                proof {
                    lemma_unruled_grows(w, i + 1);
                }
                return None;
            },
        }
        i += 1;
    }
    assert(w.take(i as int) =~= w);
    Some(sum)
}

impl HuntCandidate {
    /// Rules cover a part of the directory, so that it holds more than is unruled.
    pub fn is_partly_ruled(&self) -> (r: bool)
        ensures
            r == (self@.total > self@.unruled),
    {
        self.total_bytes > self.unruled_bytes
    }
}

} // verus!
