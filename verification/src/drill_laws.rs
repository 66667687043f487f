//! What holds of the rows of a hunt.

#[allow(unused_imports)]
use crate::drill::{
    big_children, child_flags, distinct, drill, drill_all, falling_key, falling_keys, found, landed,
    landings, largest_first, lemma_falling, lemma_largest_first, longest, row_of, seed_flags, seeds,
    DirView,
};
#[allow(unused_imports)]
use crate::order::{before, lemma_marked, lemma_stable_order, marked, stable_order};
#[allow(unused_imports)]
use crate::paths::parent_parts;
use vstd::prelude::*;

verus! {

/// A directory is a row of its own: it reaches the floor and none of its children does.
pub open spec fn finest(u: Seq<DirView>, i: int, min: nat) -> bool {
    &&& 0 <= i < u.len()
    &&& u[i].unruled >= min
    &&& forall|j: int|
        0 <= j < u.len() && parent_parts((#[trigger] u[j]).parts) == Some(u[i].parts)
            ==> u[j].unruled < min
}

proof fn lemma_longest(u: Seq<DirView>, i: int)
    requires
        0 <= i < u.len(),
    ensures
        u[i].parts.len() <= longest(u),
    decreases u.len(),
{
    if i < u.len() - 1 {
        lemma_longest(u.drop_last(), i);
        assert(u.drop_last()[i] == u[i]);
    }
}

/// The large children of a directory: each is one, all are there, and none twice.
proof fn lemma_children(u: Seq<DirView>, i: int, min: nat)
    requires
        0 <= i < u.len(),
    ensures
        forall|k: int|
            0 <= k < big_children(u, i, min).len() ==> {
                let c = #[trigger] big_children(u, i, min)[k];
                0 <= c < u.len() && parent_parts(u[c].parts) == Some(u[i].parts)
            },
        big_children(u, i, min).no_duplicates(),
        big_children(u, i, min).len() == 0 ==> forall|j: int|
            0 <= j < u.len() && parent_parts((#[trigger] u[j]).parts) == Some(u[i].parts)
                ==> u[j].unruled < min,
{
    let flags = child_flags(u, i, min);
    lemma_marked(flags);
    let m = marked(flags);
    assert(m.no_duplicates());
    lemma_largest_first(u, m);
    let b = big_children(u, i, min);
    assert forall|k: int| 0 <= k < b.len() implies {
        let c = #[trigger] b[k];
        0 <= c < u.len() && parent_parts(u[c].parts) == Some(u[i].parts)
    } by {
        assert(m.contains(b[k]));
    }
    if b.len() == 0 {
        assert forall|j: int|
            0 <= j < u.len() && parent_parts((#[trigger] u[j]).parts) == Some(
                u[i].parts,
            ) implies u[j].unruled < min by {
            if u[j].unruled >= min {
                assert(flags[j]);
                assert(m.contains(j));
            }
        }
    }
}

proof fn lemma_drill_finest(u: Seq<DirView>, i: int, min: nat, levels: nat)
    requires
        0 <= i < u.len(),
        u[i].parts.len() + levels >= longest(u),
    ensures
        forall|k: int|
            0 <= k < drill(u, i, min, levels).len() ==> finest(
                u,
                #[trigger] drill(u, i, min, levels)[k],
                min,
            ),
    decreases levels, 0nat,
{
    lemma_children(u, i, min);
    let b = big_children(u, i, min);
    if u[i].unruled >= min {
        if b.len() == 0 {
            assert(finest(u, i, min));
            assert(drill(u, i, min, levels) == seq![i]);
        } else if levels == 0 {
            let c = b[0];
            lemma_longest(u, c);
            assert(parent_parts(u[c].parts) == Some(u[i].parts));
            assert(u[c].parts.len() == u[i].parts.len() + 1);
            assert(false);
        } else {
            assert forall|k: int| 0 <= k < b.len() implies 0 <= #[trigger] b[k] < u.len()
                && u[b[k]].parts.len() + (levels - 1) >= longest(u) by {
                assert(parent_parts(u[b[k]].parts) == Some(u[i].parts));
            }
            lemma_all_finest(u, b, min, (levels - 1) as nat);
            assert(drill(u, i, min, levels) == drill_all(u, b, min, (levels - 1) as nat));
        }
    }
}

proof fn lemma_all_finest(u: Seq<DirView>, list: Seq<int>, min: nat, levels: nat)
    requires
        forall|k: int|
            0 <= k < list.len() ==> 0 <= #[trigger] list[k] < u.len() && u[list[k]].parts.len()
                + levels >= longest(u),
    ensures
        forall|k: int|
            0 <= k < drill_all(u, list, min, levels).len() ==> finest(
                u,
                #[trigger] drill_all(u, list, min, levels)[k],
                min,
            ),
    decreases levels, list.len(),
{
    if list.len() > 0 {
        let d = list.drop_last();
        assert forall|k: int| 0 <= k < d.len() implies 0 <= #[trigger] d[k] < u.len()
            && u[d[k]].parts.len() + levels >= longest(u) by {
            assert(d[k] == list[k]);
        }
        lemma_all_finest(u, d, min, levels);
        let last = list[list.len() - 1];
        lemma_drill_finest(u, last, min, levels);
        let (x, y) = (drill_all(u, d, min, levels), drill(u, last, min, levels));
        assert forall|k: int| 0 <= k < drill_all(u, list, min, levels).len() implies finest(
            u,
            #[trigger] drill_all(u, list, min, levels)[k],
            min,
        ) by {
            if k < x.len() {
                assert(drill_all(u, list, min, levels)[k] == x[k]);
            } else {
                assert(drill_all(u, list, min, levels)[k] == y[k - x.len()]);
            }
        }
    }
}

/// Every row is a directory whose unruled bytes reach the floor, while those of none of its
/// children do.
pub proof fn rows_are_the_finest(u: Seq<DirView>, home: Seq<Seq<char>>, min: nat, top: nat, k: int)
    requires
        0 <= k < landed(u, home, min, top).len(),
    ensures
        finest(u, landed(u, home, min, top)[k], min),
{
    let flags = seed_flags(u, home);
    lemma_marked(flags);
    lemma_largest_first(u, marked(flags));
    let s = seeds(u, home);
    assert forall|j: int| 0 <= j < s.len() implies 0 <= #[trigger] s[j] < u.len()
        && u[s[j]].parts.len() + longest(u) >= longest(u) by {
        assert(marked(flags).contains(s[j]));
    }
    lemma_all_finest(u, s, min, longest(u));
    let rows = found(u, home, min);
    lemma_largest_first(u, rows);
    let r = landed(u, home, min, top)[k];
    assert(r == largest_first(u, rows)[k]);
    assert(rows.contains(r));
}

/// The rows come with the most unruled bytes first, and no more of them than asked for.
pub proof fn rows_are_ranked(
    u: Seq<DirView>,
    home: Seq<Seq<char>>,
    min: nat,
    top: nat,
    i: int,
    j: int,
)
    requires
        forall|d: int|
            0 <= d < u.len() ==> (#[trigger] u[d]).unruled < 0x1_0000_0000_0000_0000
                * 0x1_0000_0000_0000_0000,
        0 <= i < j < landed(u, home, min, top).len(),
    ensures
        u[landed(u, home, min, top)[i]].unruled >= u[landed(u, home, min, top)[j]].unruled,
        landed(u, home, min, top).len() <= top,
{
    let rows = found(u, home, min);
    let keys = falling_keys(u, rows);
    lemma_stable_order(keys);
    let o = stable_order(keys);
    rows_are_the_finest(u, home, min, top, i);
    rows_are_the_finest(u, home, min, top, j);
    assert(before(keys, o[i], o[j]));
    let (a, b) = (rows[o[i]], rows[o[j]]);
    assert(landed(u, home, min, top)[i] == a && landed(u, home, min, top)[j] == b);
    assert(keys[o[i]] == falling_key(u[a].unruled) && keys[o[j]] == falling_key(u[b].unruled));
    lemma_falling(u[a].unruled, u[b].unruled);
}

// ---------------------------------------------------------------------------
// Rows are not nested
// ---------------------------------------------------------------------------
/// Neither directory holds the other.
pub open spec fn separate(u: Seq<DirView>, a: int, b: int) -> bool {
    !u[a].parts.is_prefix_of(u[b].parts) && !u[b].parts.is_prefix_of(u[a].parts)
}

spec fn all_separate(u: Seq<DirView>, rows: Seq<int>) -> bool {
    forall|a: int, b: int|
        0 <= a < b < rows.len() ==> separate(u, #[trigger] rows[a], #[trigger] rows[b])
}

pub open spec fn all_beneath(u: Seq<DirView>, rows: Seq<int>, i: int) -> bool {
    forall|k: int| 0 <= k < rows.len() ==> u[i].parts.is_prefix_of(u[#[trigger] rows[k]].parts)
}

proof fn lemma_prefix_trans(a: Seq<Seq<char>>, b: Seq<Seq<char>>, c: Seq<Seq<char>>)
    requires
        a.is_prefix_of(b),
        b.is_prefix_of(c),
    ensures
        a.is_prefix_of(c),
{
    assert forall|i: int| 0 <= i < a.len() implies a[i] == c.subrange(0, a.len() as int)[i] by {
        assert(a[i] == b.subrange(0, a.len() as int)[i]);
        assert(b[i] == c.subrange(0, b.len() as int)[i]);
    }
    assert(a =~= c.subrange(0, a.len() as int));
}

/// What lies beneath two different directories of one level is separate.
proof fn lemma_siblings_apart(u: Seq<DirView>, c: int, d: int, a: int, b: int)
    requires
        u[c].parts.len() == u[d].parts.len(),
        u[c].parts != u[d].parts,
        u[c].parts.is_prefix_of(u[a].parts),
        u[d].parts.is_prefix_of(u[b].parts),
    ensures
        separate(u, a, b),
{
    let n = u[c].parts.len() as int;
    if u[a].parts.is_prefix_of(u[b].parts) {
        lemma_prefix_trans(u[c].parts, u[a].parts, u[b].parts);
        assert(u[c].parts =~= u[b].parts.subrange(0, n));
        assert(u[d].parts =~= u[b].parts.subrange(0, n));
    }
    if u[b].parts.is_prefix_of(u[a].parts) {
        lemma_prefix_trans(u[d].parts, u[b].parts, u[a].parts);
        assert(u[c].parts =~= u[a].parts.subrange(0, n));
        assert(u[d].parts =~= u[a].parts.subrange(0, n));
    }
}

spec fn one_level(u: Seq<DirView>, list: Seq<int>, level: nat) -> bool {
    &&& list.no_duplicates()
    &&& forall|k: int|
        0 <= k < list.len() ==> 0 <= #[trigger] list[k] < u.len() && u[list[k]].parts.len() == level
}

proof fn lemma_drill_separate(u: Seq<DirView>, i: int, min: nat, levels: nat)
    requires
        distinct(u),
        0 <= i < u.len(),
    ensures
        all_separate(u, drill(u, i, min, levels)),
        all_beneath(u, drill(u, i, min, levels), i),
    decreases levels, 0nat,
{
    assert(u[i].parts.subrange(0, u[i].parts.len() as int) =~= u[i].parts);
    lemma_children(u, i, min);
    let b = big_children(u, i, min);
    if u[i].unruled >= min && b.len() > 0 && levels > 0 {
        assert forall|k: int| 0 <= k < b.len() implies 0 <= #[trigger] b[k] < u.len()
            && u[b[k]].parts.len() == u[i].parts.len() + 1 by {
            assert(parent_parts(u[b[k]].parts) == Some(u[i].parts));
        }
        let l = (levels - 1) as nat;
        lemma_all_separate(u, b, min, l, u[i].parts.len() + 1);
        let rows = drill_all(u, b, min, l);
        assert forall|k: int| 0 <= k < rows.len() implies u[i].parts.is_prefix_of(
            u[#[trigger] rows[k]].parts,
        ) by {
            let c = choose|c: int|
                0 <= c < b.len() && u[#[trigger] b[c]].parts.is_prefix_of(u[rows[k]].parts);
            let p = u[b[c]].parts;
            assert(parent_parts(p) == Some(u[i].parts));
            assert(u[i].parts =~= p.subrange(0, u[i].parts.len() as int));
            lemma_prefix_trans(u[i].parts, p, u[rows[k]].parts);
        }
    }
}

proof fn lemma_all_separate(u: Seq<DirView>, list: Seq<int>, min: nat, levels: nat, level: nat)
    requires
        distinct(u),
        one_level(u, list, level),
    ensures
        all_separate(u, drill_all(u, list, min, levels)),
        forall|k: int|
            0 <= k < drill_all(u, list, min, levels).len() ==> exists|c: int|
                0 <= c < list.len() && u[#[trigger] list[c]].parts.is_prefix_of(
                    u[#[trigger] drill_all(u, list, min, levels)[k]].parts,
                ),
    decreases levels, list.len(),
{
    if list.len() > 0 {
        let d = list.drop_last();
        let n = list.len() - 1;
        let last = list[n];
        assert(one_level(u, d, level)) by {
            assert forall|k: int| 0 <= k < d.len() implies 0 <= #[trigger] d[k] < u.len()
                && u[d[k]].parts.len() == level by {
                assert(d[k] == list[k]);
            }
        }
        lemma_all_separate(u, d, min, levels, level);
        lemma_drill_separate(u, last, min, levels);
        let (x, y) = (drill_all(u, d, min, levels), drill(u, last, min, levels));
        let r = drill_all(u, list, min, levels);
        assert forall|k: int| 0 <= k < r.len() implies exists|c: int|
            0 <= c < list.len() && u[#[trigger] list[c]].parts.is_prefix_of(
                u[#[trigger] r[k]].parts,
            ) by {
            if k < x.len() {
                assert(r[k] == x[k]);
                let c = choose|c: int|
                    0 <= c < d.len() && u[#[trigger] d[c]].parts.is_prefix_of(u[x[k]].parts);
                assert(list[c] == d[c]);
            } else {
                assert(r[k] == y[k - x.len()]);
                assert(list[n] == last);
            }
        }
        assert forall|a: int, b: int| 0 <= a < b < r.len() implies separate(
            u,
            #[trigger] r[a],
            #[trigger] r[b],
        ) by {
            if b < x.len() {
                assert(r[a] == x[a] && r[b] == x[b]);
            } else if a >= x.len() {
                assert(r[a] == y[a - x.len()] && r[b] == y[b - x.len()]);
            } else {
                assert(r[a] == x[a] && r[b] == y[b - x.len()]);
                let c = choose|c: int|
                    0 <= c < d.len() && u[#[trigger] d[c]].parts.is_prefix_of(u[x[a]].parts);
                assert(list[c] == d[c]);
                assert(list[c] != list[n]);
                if list[c] < last {
                    assert(u[list[c]].parts != u[last].parts);
                } else {
                    assert(u[last].parts != u[list[c]].parts);
                }
                lemma_siblings_apart(u, list[c], last, r[a], r[b]);
            }
        }
    }
}

/// No row lies at or beneath another: no bytes are reported twice.
pub proof fn rows_are_not_nested(
    u: Seq<DirView>,
    home: Seq<Seq<char>>,
    min: nat,
    top: nat,
    i: int,
    j: int,
)
    requires
        distinct(u),
        0 <= i < j < landed(u, home, min, top).len(),
    ensures
        separate(u, landed(u, home, min, top)[i], landed(u, home, min, top)[j]),
{
    let flags = seed_flags(u, home);
    lemma_marked(flags);
    let m = marked(flags);
    assert(m.no_duplicates());
    lemma_largest_first(u, m);
    let s = seeds(u, home);
    assert(one_level(u, s, home.len() + 1)) by {
        assert forall|k: int| 0 <= k < s.len() implies 0 <= #[trigger] s[k] < u.len()
            && u[s[k]].parts.len() == home.len() + 1 by {
            assert(m.contains(s[k]));
        }
    }
    lemma_all_separate(u, s, min, longest(u), home.len() + 1);
    let rows = found(u, home, min);
    let keys = falling_keys(u, rows);
    lemma_stable_order(keys);
    let o = stable_order(keys);
    assert(landed(u, home, min, top)[i] == rows[o[i]]);
    assert(landed(u, home, min, top)[j] == rows[o[j]]);
    assert(o[i] != o[j]);
    if o[i] < o[j] {
        assert(separate(u, rows[o[i]], rows[o[j]]));
    } else {
        assert(separate(u, rows[o[j]], rows[o[i]]));
    }
}

// ---------------------------------------------------------------------------
// Where rows lie
// ---------------------------------------------------------------------------
pub proof fn lemma_drill_beneath(u: Seq<DirView>, i: int, min: nat, levels: nat)
    requires
        0 <= i < u.len(),
    ensures
        all_beneath(u, drill(u, i, min, levels), i),
    decreases levels, 0nat,
{
    assert(u[i].parts.subrange(0, u[i].parts.len() as int) =~= u[i].parts);
    lemma_children(u, i, min);
    let b = big_children(u, i, min);
    if u[i].unruled >= min && b.len() > 0 && levels > 0 {
        assert forall|k: int| 0 <= k < b.len() implies 0 <= #[trigger] b[k] < u.len()
            && u[i].parts.is_prefix_of(u[b[k]].parts) by {
            let p = u[b[k]].parts;
            assert(parent_parts(p) == Some(u[i].parts));
            assert(u[i].parts =~= p.subrange(0, u[i].parts.len() as int));
        }
        lemma_drills_beneath(u, b, min, (levels - 1) as nat, u[i].parts);
        assert(drill(u, i, min, levels) == drill_all(u, b, min, (levels - 1) as nat));
    } else if u[i].unruled >= min {
        assert(drill(u, i, min, levels) == seq![i]);
    }
}

proof fn lemma_drills_beneath(
    u: Seq<DirView>,
    list: Seq<int>,
    min: nat,
    levels: nat,
    base: Seq<Seq<char>>,
)
    requires
        forall|k: int|
            0 <= k < list.len() ==> 0 <= #[trigger] list[k] < u.len() && base.is_prefix_of(
                u[list[k]].parts,
            ),
    ensures
        forall|k: int|
            0 <= k < drill_all(u, list, min, levels).len() ==> base.is_prefix_of(
                u[#[trigger] drill_all(u, list, min, levels)[k]].parts,
            ),
    decreases levels, list.len(),
{
    if list.len() > 0 {
        let d = list.drop_last();
        let last = list[list.len() - 1];
        assert forall|k: int| 0 <= k < d.len() implies 0 <= #[trigger] d[k] < u.len()
            && base.is_prefix_of(u[d[k]].parts) by {
            assert(d[k] == list[k]);
        }
        lemma_drills_beneath(u, d, min, levels, base);
        lemma_drill_beneath(u, last, min, levels);
        let (x, y) = (drill_all(u, d, min, levels), drill(u, last, min, levels));
        let r = drill_all(u, list, min, levels);
        assert forall|k: int| 0 <= k < r.len() implies base.is_prefix_of(
            u[#[trigger] r[k]].parts,
        ) by {
            if k < x.len() {
                assert(r[k] == x[k]);
            } else {
                assert(r[k] == y[k - x.len()]);
                lemma_prefix_trans(base, u[last].parts, u[r[k]].parts);
            }
        }
    }
}

/// The seeds of a hunt, and with them its rows, lie beneath home.
proof fn lemma_found_beneath(u: Seq<DirView>, home: Seq<Seq<char>>, min: nat, k: int)
    requires
        0 <= k < found(u, home, min).len(),
    ensures
        home.is_prefix_of(u[found(u, home, min)[k]].parts),
        u[found(u, home, min)[k]].parts.len() > home.len(),
{
    let flags = seed_flags(u, home);
    lemma_marked(flags);
    lemma_largest_first(u, marked(flags));
    let s = seeds(u, home);
    assert forall|j: int| 0 <= j < s.len() implies 0 <= #[trigger] s[j] < u.len()
        && home.is_prefix_of(u[s[j]].parts) && u[s[j]].parts.len() == home.len() + 1 by {
        assert(marked(flags).contains(s[j]));
    }
    lemma_drills_beneath(u, s, min, longest(u), home);
    lemma_drills_longer(u, s, min, longest(u), home.len() + 1);
}

proof fn lemma_drills_longer(u: Seq<DirView>, list: Seq<int>, min: nat, levels: nat, n: nat)
    requires
        forall|k: int|
            0 <= k < list.len() ==> 0 <= #[trigger] list[k] < u.len() && u[list[k]].parts.len()
                >= n,
    ensures
        forall|k: int|
            0 <= k < drill_all(u, list, min, levels).len() ==> u[#[trigger] drill_all(
                u,
                list,
                min,
                levels,
            )[k]].parts.len() >= n,
    decreases levels, list.len(),
{
    if list.len() > 0 {
        let d = list.drop_last();
        let last = list[list.len() - 1];
        assert forall|k: int| 0 <= k < d.len() implies 0 <= #[trigger] d[k] < u.len()
            && u[d[k]].parts.len() >= n by {
            assert(d[k] == list[k]);
        }
        lemma_drills_longer(u, d, min, levels, n);
        lemma_drill_beneath(u, last, min, levels);
        let (x, y) = (drill_all(u, d, min, levels), drill(u, last, min, levels));
        let r = drill_all(u, list, min, levels);
        assert forall|k: int| 0 <= k < r.len() implies u[#[trigger] r[k]].parts.len() >= n by {
            if k < x.len() {
                assert(r[k] == x[k]);
            } else {
                assert(r[k] == y[k - x.len()]);
                assert(u[last].parts.is_prefix_of(u[r[k]].parts));
            }
        }
    }
}

/// Every row lies at least one level beneath home and reaches the floor.
pub proof fn rows_lie_beneath_home(
    u: Seq<DirView>,
    home: Seq<Seq<char>>,
    min: nat,
    top: nat,
    k: int,
)
    requires
        0 <= k < landings(u, home, min, top).len(),
    ensures
        landings(u, home, min, top)[k].depth >= 1,
        landings(u, home, min, top)[k].unruled >= min,
        home.is_prefix_of(u[landed(u, home, min, top)[k]].parts),
{
    let rows = found(u, home, min);
    lemma_largest_first(u, rows);
    let r = landed(u, home, min, top)[k];
    assert(r == largest_first(u, rows)[k]);
    assert(rows.contains(r));
    let q = rows.index_of(r);
    assert(rows[q] == r);
    lemma_found_beneath(u, home, min, q);
    rows_are_the_finest(u, home, min, top, k);
    assert(landings(u, home, min, top)[k] == row_of(u[r], home));
}

/// Fewer rows are the first of more rows.
pub proof fn fewer_rows_are_the_first(
    u: Seq<DirView>,
    home: Seq<Seq<char>>,
    min: nat,
    few: nat,
    many: nat,
)
    requires
        few <= many,
    ensures
        landings(u, home, min, few).is_prefix_of(landings(u, home, min, many)),
        landings(u, home, min, few).len() == if landings(u, home, min, many).len() < few {
            landings(u, home, min, many).len()
        } else {
            few
        },
{
    let (a, b) = (landings(u, home, min, few), landings(u, home, min, many));
    let (x, y) = (landed(u, home, min, few), landed(u, home, min, many));
    assert(a =~= b.subrange(0, a.len() as int)) by {
        assert forall|i: int| 0 <= i < a.len() implies a[i] == b[i] by {
            assert(x[i] == y[i]);
        }
    }
}

} // verus!
