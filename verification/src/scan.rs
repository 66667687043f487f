//! The scan's cache and its summary by category.

use crate::drill::falling_key_of;
#[allow(unused_imports)]
use crate::drill::falling_key;
use crate::model::{Category, ScannedEntry};
#[allow(unused_imports)]
use crate::model::{entry_views, EntryView};
use crate::order::{order_of, Key};
#[allow(unused_imports)]
use crate::order::{indices, key_views, lemma_stable_order, sorted_stably};
use crate::paths::join_path;
#[allow(unused_imports)]
use crate::paths::joined_path;
use vstd::prelude::*;

verus! {

/// Where the last scan is kept.
pub fn scan_cache_path(data_dir: &str) -> (r: String)
    ensures
        r@ == joined_path(data_dir@, "scan.json"@),
{
    join_path(data_dir, "scan.json")
}

/// The bytes of the entries in a category.
pub open spec fn bytes_in_category(v: Seq<EntryView>, c: Category) -> nat
    decreases v.len(),
{
    if v.len() == 0 {
        0
    } else {
        bytes_in_category(v.drop_last(), c) + if v.last().category == c {
            v.last().size_bytes as nat
        } else {
            0
        }
    }
}

/// The bytes of all entries.
pub open spec fn scanned_bytes(v: Seq<EntryView>) -> nat
    decreases v.len(),
{
    if v.len() == 0 {
        0
    } else {
        scanned_bytes(v.drop_last()) + v.last().size_bytes as nat
    }
}

/// A row of the summary.
#[derive(Debug, Clone, Copy, PartialEq, Eq, Structural)]
pub struct CategoryBytes {
    pub category: Category,
    pub bytes: u128,
}

/// A category with its bytes, in front of the rows of others; nothing where there are none.
pub open spec fn row_for(v: Seq<EntryView>, c: Category) -> Seq<(Category, nat)> {
    if bytes_in_category(v, c) > 0 {
        seq![(c, bytes_in_category(v, c))]
    } else {
        Seq::empty()
    }
}

pub open spec fn rows_in_order(v: Seq<EntryView>) -> Seq<(Category, nat)> {
    row_for(v, Category::DevArtifact) + row_for(v, Category::AppCache) + row_for(
        v,
        Category::DownloadEntropy,
    ) + row_for(v, Category::VmDisk) + row_for(v, Category::Unknown)
}

pub open spec fn byte_keys(rows: Seq<(Category, nat)>) -> Seq<Seq<Seq<int>>> {
    rows.map_values(|r: (Category, nat)| falling_key(r.1))
}

/// The categories that hold bytes, the largest first.
pub open spec fn summary(v: Seq<EntryView>) -> Seq<(Category, nat)> {
    sorted_stably(rows_in_order(v), byte_keys(rows_in_order(v)))
}

pub open spec fn summary_views(v: Seq<CategoryBytes>) -> Seq<(Category, nat)> {
    v.map_values(|r: CategoryBytes| (r.category, r.bytes as nat))
}

fn category_bytes(v: &Vec<ScannedEntry>, c: Category) -> (r: u128)
    ensures
        r == bytes_in_category(entry_views(v@), c),
{
    let ghost w = entry_views(v@);
    let mut total: u128 = 0;
    let mut i: usize = 0;
    assert(w.take(0) =~= Seq::empty());
    while i < v.len()
        invariant
            i <= v@.len(),
            w == entry_views(v@),
            total == bytes_in_category(w.take(i as int), c),
            total <= i * 0xffff_ffff_ffff_ffff,
        decreases v.len() - i,
    {
        assert(w.take(i + 1).drop_last() =~= w.take(i as int));
        assert(w.take(i + 1).last() == v@[i as int]@);
        assert(i * 0xffff_ffff_ffff_ffff <= 0xffff_ffff_ffff_ffff * 0xffff_ffff_ffff_ffff)
            by (nonlinear_arith)
            requires
                i <= 0xffff_ffff_ffff_ffff,
        ;
        if v[i].category == c {
            total = total + v[i].size_bytes as u128;
        }
        i += 1;
    }
    assert(w.take(i as int) =~= w);
    total
}

fn push_category(out: &mut Vec<CategoryBytes>, v: &Vec<ScannedEntry>, c: Category)
    ensures
        summary_views(final(out)@) == summary_views(old(out)@) + row_for(entry_views(v@), c),
{
    let bytes: u128 = category_bytes(v, c);
    if bytes > 0 {
        out.push(CategoryBytes { category: c, bytes });
        assert(summary_views(out@) =~= summary_views(old(out)@) + row_for(entry_views(v@), c));
    } else {
        assert(summary_views(out@) =~= summary_views(old(out)@) + row_for(entry_views(v@), c));
    }
}

/// Sums a scan up: the categories that hold bytes, the largest first.
pub fn category_summary(v: &Vec<ScannedEntry>) -> (r: Vec<CategoryBytes>)
    ensures
        summary_views(r@) == summary(entry_views(v@)),
{
    let ghost w = entry_views(v@);
    let mut rows: Vec<CategoryBytes> = Vec::new();
    push_category(&mut rows, v, Category::DevArtifact);
    push_category(&mut rows, v, Category::AppCache);
    push_category(&mut rows, v, Category::DownloadEntropy);
    push_category(&mut rows, v, Category::VmDisk);
    push_category(&mut rows, v, Category::Unknown);
    let ghost s = summary_views(rows@);
    assert(s =~= rows_in_order(w));
    let mut keys: Vec<Key> = Vec::new();
    let mut i: usize = 0;
    while i < rows.len()
        invariant
            i <= rows@.len(),
            s == summary_views(rows@),
            keys@.len() == i,
            forall|j: int| 0 <= j < i ==> (#[trigger] keys@[j])@ == falling_key(s[j].1),
        decreases rows.len() - i,
    {
        assert(s[i as int].1 == rows@[i as int].bytes as nat);
        keys.push(falling_key_of(rows[i].bytes));
        i += 1;
    }
    assert(key_views(keys@) =~= byte_keys(s));
    let order: Vec<usize> = order_of(&keys);
    let ghost o = indices(order@);
    proof {
        lemma_stable_order(key_views(keys@));
    }
    assert(o.len() == order@.len());
    let mut out: Vec<CategoryBytes> = Vec::new();
    let mut n: usize = 0;
    while n < order.len()
        invariant
            n <= order@.len(),
            forall|j: int| 0 <= j < order@.len() ==> #[trigger] order@[j] < rows@.len(),
            out@.len() == n,
            forall|j: int| 0 <= j < n ==> #[trigger] out@[j] == rows@[order@[j] as int],
        decreases order.len() - n,
    {
        out.push(rows[order[n]]);
        n += 1;
    }
    assert(summary_views(out@) =~= summary(w)) by {
        assert forall|j: int| 0 <= j < out@.len() implies #[trigger] summary_views(out@)[j]
            == summary(w)[j] by {
            assert(o[j] == order@[j] as int);
            assert(summary(w)[j] == s[o[j]]);
        }
    }
    out
}

/// What the bars of the summary are measured against: the largest row, one where there is none.
pub fn bar_scale(rows: &Vec<CategoryBytes>) -> (r: u128)
    ensures
        r == if rows@.len() == 0 {
            1u128
        } else {
            rows@[0].bytes
        },
{
    if rows.len() == 0 {
        1
    } else {
        rows[0].bytes
    }
}

/// The categories divide a scan: their bytes add up to those of all entries.
pub proof fn categories_divide_the_scan(v: Seq<EntryView>)
    ensures
        scanned_bytes(v) == bytes_in_category(v, Category::DevArtifact) + bytes_in_category(
            v,
            Category::AppCache,
        ) + bytes_in_category(v, Category::DownloadEntropy) + bytes_in_category(
            v,
            Category::VmDisk,
        ) + bytes_in_category(v, Category::Unknown),
    decreases v.len(),
{
    if v.len() > 0 {
        categories_divide_the_scan(v.drop_last());
        let c = v.last().category;
        assert(c == Category::DevArtifact || c == Category::AppCache || c
            == Category::DownloadEntropy || c == Category::VmDisk || c == Category::Unknown);
    }
}

} // verus!
