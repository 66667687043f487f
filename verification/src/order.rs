//! Stable sorting by keys that compare lexicographically.

use vstd::prelude::*;
use vstd::relations::{sorted_by, total_ordering};

verus! {

/// A sort key: components that compare one after the other, each component by its numbers.
pub struct Key {
    pub parts: Vec<Vec<u64>>,
}

impl View for Key {
    type V = Seq<Seq<int>>;

    open spec fn view(&self) -> Seq<Seq<int>> {
        self.parts@.map_values(|p: Vec<u64>| numbers(p@))
    }
}

pub open spec fn numbers(s: Seq<u64>) -> Seq<int> {
    s.map_values(|n: u64| n as int)
}

pub open spec fn indices(s: Seq<usize>) -> Seq<int> {
    s.map_values(|n: usize| n as int)
}

pub open spec fn key_views(v: Seq<Key>) -> Seq<Seq<Seq<int>>> {
    v.map_values(|k: Key| k@)
}

/// Lexicographic order on sequences of numbers; a proper prefix comes first.
pub open spec fn less(a: Seq<int>, b: Seq<int>) -> bool
    decreases a.len(),
{
    if b.len() == 0 {
        false
    } else if a.len() == 0 {
        true
    } else if a[0] != b[0] {
        a[0] < b[0]
    } else {
        less(a.drop_first(), b.drop_first())
    }
}

/// Lexicographic order on keys; a proper prefix comes first.
pub open spec fn key_less(a: Seq<Seq<int>>, b: Seq<Seq<int>>) -> bool
    decreases a.len(),
{
    if b.len() == 0 {
        false
    } else if a.len() == 0 {
        true
    } else if a[0] != b[0] {
        less(a[0], b[0])
    } else {
        key_less(a.drop_first(), b.drop_first())
    }
}

/// Position `i` comes no later than position `j`: by its key, or for equal keys by where it
/// stands.
pub open spec fn before(keys: Seq<Seq<Seq<int>>>, i: int, j: int) -> bool {
    key_less(keys[i], keys[j]) || (keys[i] == keys[j] && i <= j)
}

pub open spec fn order_on(keys: Seq<Seq<Seq<int>>>) -> spec_fn(int, int) -> bool {
    |i: int, j: int| before(keys, i, j)
}

pub open spec fn range(lo: int, hi: int) -> Seq<int> {
    Seq::new((hi - lo) as nat, |i: int| lo + i)
}

/// The positions of `keys` in ascending order of their keys, equal keys in their given order.
pub open spec fn stable_order(keys: Seq<Seq<Seq<int>>>) -> Seq<int> {
    range(0, keys.len() as int).sort_by(order_on(keys))
}

/// The elements of `s` at the positions `order`.
pub open spec fn arranged<T>(s: Seq<T>, order: Seq<int>) -> Seq<T> {
    order.map_values(|i: int| s[i])
}

/// The elements of `s` in ascending order of `keys`, equal keys in their given order.
pub open spec fn sorted_stably<T>(s: Seq<T>, keys: Seq<Seq<Seq<int>>>) -> Seq<T> {
    arranged(s, stable_order(keys))
}

// ---------------------------------------------------------------------------
// The order is total
// ---------------------------------------------------------------------------
proof fn lemma_head_tail<T>(a: Seq<T>, b: Seq<T>)
    requires
        a.len() > 0,
        b.len() > 0,
        a[0] == b[0],
        a.drop_first() == b.drop_first(),
    ensures
        a == b,
{
    assert(a.drop_first().len() == a.len() - 1);
    assert(b.drop_first().len() == b.len() - 1);
    assert forall|i: int| 0 <= i < a.len() implies a[i] == b[i] by {
        if i > 0 {
            assert(a[i] == a.drop_first()[i - 1]);
            assert(b[i] == b.drop_first()[i - 1]);
        }
    }
    assert(a =~= b);
}

proof fn lemma_less_irreflexive(a: Seq<int>)
    ensures
        !less(a, a),
    decreases a.len(),
{
    if a.len() > 0 {
        lemma_less_irreflexive(a.drop_first());
    }
}

proof fn lemma_less_transitive(a: Seq<int>, b: Seq<int>, c: Seq<int>)
    requires
        less(a, b),
        less(b, c),
    ensures
        less(a, c),
    decreases a.len(),
{
    if a.len() > 0 && b.len() > 0 && c.len() > 0 && a[0] == b[0] && b[0] == c[0] {
        lemma_less_transitive(a.drop_first(), b.drop_first(), c.drop_first());
    }
}

proof fn lemma_less_total(a: Seq<int>, b: Seq<int>)
    ensures
        less(a, b) || less(b, a) || a == b,
    decreases a.len(),
{
    if a.len() == 0 && b.len() == 0 {
        assert(a =~= b);
    } else if a.len() > 0 && b.len() > 0 && a[0] == b[0] {
        lemma_less_total(a.drop_first(), b.drop_first());
        if a.drop_first() == b.drop_first() {
            lemma_head_tail(a, b);
        }
    }
}

pub proof fn lemma_key_less_irreflexive(a: Seq<Seq<int>>)
    ensures
        !key_less(a, a),
    decreases a.len(),
{
    if a.len() > 0 {
        lemma_key_less_irreflexive(a.drop_first());
    }
}

pub proof fn lemma_key_less_transitive(a: Seq<Seq<int>>, b: Seq<Seq<int>>, c: Seq<Seq<int>>)
    requires
        key_less(a, b),
        key_less(b, c),
    ensures
        key_less(a, c),
    decreases a.len(),
{
    if a.len() > 0 && b.len() > 0 && c.len() > 0 {
        if a[0] == b[0] && b[0] == c[0] {
            lemma_key_less_transitive(a.drop_first(), b.drop_first(), c.drop_first());
        } else if a[0] != b[0] && b[0] != c[0] {
            lemma_less_transitive(a[0], b[0], c[0]);
            lemma_less_irreflexive(a[0]);
        }
    }
}

pub proof fn lemma_key_less_total(a: Seq<Seq<int>>, b: Seq<Seq<int>>)
    ensures
        key_less(a, b) || key_less(b, a) || a == b,
    decreases a.len(),
{
    if a.len() == 0 && b.len() == 0 {
        assert(a =~= b);
    } else if a.len() > 0 && b.len() > 0 {
        if a[0] == b[0] {
            lemma_key_less_total(a.drop_first(), b.drop_first());
            if a.drop_first() == b.drop_first() {
                lemma_head_tail(a, b);
            }
        } else {
            lemma_less_total(a[0], b[0]);
        }
    }
}

pub proof fn lemma_key_less_asymmetric(a: Seq<Seq<int>>, b: Seq<Seq<int>>)
    requires
        key_less(a, b),
    ensures
        !key_less(b, a),
        a != b,
{
    lemma_key_less_irreflexive(a);
    if key_less(b, a) {
        lemma_key_less_transitive(a, b, a);
    }
}

proof fn lemma_order_total(keys: Seq<Seq<Seq<int>>>)
    ensures
        total_ordering(order_on(keys)),
{
    let r = order_on(keys);
    assert forall|x: int, y: int| #[trigger] r(x, y) && #[trigger] r(y, x) implies x == y by {
        if key_less(keys[x], keys[y]) {
            lemma_key_less_asymmetric(keys[x], keys[y]);
        }
        if key_less(keys[y], keys[x]) {
            lemma_key_less_asymmetric(keys[y], keys[x]);
        }
    }
    assert forall|x: int, y: int, z: int| #[trigger] r(x, y) && #[trigger] r(y, z) implies r(
        x,
        z,
    ) by {
        if key_less(keys[x], keys[y]) && key_less(keys[y], keys[z]) {
            lemma_key_less_transitive(keys[x], keys[y], keys[z]);
        }
    }
    assert forall|x: int, y: int| #[trigger] r(x, y) || #[trigger] r(y, x) by {
        lemma_key_less_total(keys[x], keys[y]);
    }
}

/// A stable order lists every position once, and lists no position before one that its key
/// puts earlier.
pub proof fn lemma_stable_order(keys: Seq<Seq<Seq<int>>>)
    ensures
        stable_order(keys).len() == keys.len(),
        forall|i: int| 0 <= i < keys.len() ==> 0 <= #[trigger] stable_order(keys)[i] < keys.len(),
        stable_order(keys).no_duplicates(),
        forall|p: int| 0 <= p < keys.len() ==> #[trigger] stable_order(keys).contains(p),
        forall|i: int, j: int|
            0 <= i < j < keys.len() ==> before(
                keys,
                #[trigger] stable_order(keys)[i],
                #[trigger] stable_order(keys)[j],
            ),
{
    broadcast use vstd::seq_lib::group_to_multiset_ensures;

    let all = range(0, keys.len() as int);
    let r = order_on(keys);
    let s = stable_order(keys);
    lemma_order_total(keys);
    all.lemma_sort_by_ensures(r);
    assert(s.len() == all.len()) by {
        assert(s.to_multiset().len() == s.len());
        assert(all.to_multiset().len() == all.len());
    }
    assert forall|i: int| 0 <= i < keys.len() implies 0 <= #[trigger] s[i] < keys.len() by {
        assert(s.contains(s[i]));
        assert(all.contains(s[i]));
    }
    assert(all.no_duplicates());
    all.lemma_multiset_has_no_duplicates();
    s.lemma_multiset_has_no_duplicates_conv();
    assert forall|p: int| 0 <= p < keys.len() implies #[trigger] s.contains(p) by {
        assert(all[p] == p);
        assert(all.to_multiset().count(p) > 0);
        assert(s.to_multiset().count(p) > 0);
    }
    assert forall|i: int, j: int| 0 <= i < j < keys.len() implies before(
        keys,
        #[trigger] s[i],
        #[trigger] s[j],
    ) by {
        assert(r(s[i], s[j]));
    }
}

// ---------------------------------------------------------------------------
// Sorting
// ---------------------------------------------------------------------------
fn component_less(a: &Vec<u64>, b: &Vec<u64>) -> (r: bool)
    ensures
        r == less(numbers(a@), numbers(b@)),
{
    let mut i: usize = 0;
    let ghost x = numbers(a@);
    let ghost y = numbers(b@);
    assert(x.skip(0) =~= x && y.skip(0) =~= y);
    while i < a.len() && i < b.len()
        invariant
            i <= a@.len(),
            i <= b@.len(),
            x == numbers(a@),
            y == numbers(b@),
            less(x, y) == less(x.skip(i as int), y.skip(i as int)),
        decreases a.len() - i,
    {
        if a[i] != b[i] {
            return a[i] < b[i];
        }
        assert(x.skip(i as int).drop_first() =~= x.skip(i + 1));
        assert(y.skip(i as int).drop_first() =~= y.skip(i + 1));
        i += 1;
    }
    i < b.len()
}

fn component_equal(a: &Vec<u64>, b: &Vec<u64>) -> (r: bool)
    ensures
        r == (numbers(a@) == numbers(b@)),
{
    if a.len() != b.len() {
        assert(numbers(a@).len() != numbers(b@).len());
        return false;
    }
    let mut i: usize = 0;
    while i < a.len()
        invariant
            i <= a@.len(),
            a@.len() == b@.len(),
            forall|j: int| 0 <= j < i ==> a@[j] == b@[j],
        decreases a.len() - i,
    {
        if a[i] != b[i] {
            assert(numbers(a@)[i as int] != numbers(b@)[i as int]);
            return false;
        }
        i += 1;
    }
    assert(numbers(a@) =~= numbers(b@));
    true
}

/// Whether one key comes before another.
pub fn key_is_less(a: &Key, b: &Key) -> (r: bool)
    ensures
        r == key_less(a@, b@),
{
    let mut i: usize = 0;
    let ghost x = a@;
    let ghost y = b@;
    assert(x.skip(0) =~= x && y.skip(0) =~= y);
    while i < a.parts.len() && i < b.parts.len()
        invariant
            i <= a.parts@.len(),
            i <= b.parts@.len(),
            x == a@,
            y == b@,
            key_less(x, y) == key_less(x.skip(i as int), y.skip(i as int)),
        decreases a.parts.len() - i,
    {
        assert(x.skip(i as int)[0] == numbers(a.parts@[i as int]@));
        assert(y.skip(i as int)[0] == numbers(b.parts@[i as int]@));
        if !component_equal(&a.parts[i], &b.parts[i]) {
            return component_less(&a.parts[i], &b.parts[i]);
        }
        assert(x.skip(i as int).drop_first() =~= x.skip(i + 1));
        assert(y.skip(i as int).drop_first() =~= y.skip(i + 1));
        i += 1;
    }
    i < b.parts.len()
}

fn comes_first(keys: &Vec<Key>, a: usize, b: usize) -> (r: bool)
    requires
        a < keys@.len(),
        b < keys@.len(),
    ensures
        r == before(key_views(keys@), a as int, b as int),
{
    proof {
        lemma_key_less_total(keys@[a as int]@, keys@[b as int]@);
        lemma_key_less_irreflexive(keys@[a as int]@);
        if key_less(keys@[b as int]@, keys@[a as int]@) {
            lemma_key_less_asymmetric(keys@[b as int]@, keys@[a as int]@);
        }
    }
    if key_is_less(&keys[a], &keys[b]) {
        true
    } else if key_is_less(&keys[b], &keys[a]) {
        false
    } else {
        a <= b
    }
}

fn merge(keys: &Vec<Key>, left: &Vec<usize>, right: &Vec<usize>) -> (r: Vec<usize>)
    requires
        forall|i: int| 0 <= i < left@.len() ==> #[trigger] left@[i] < keys@.len(),
        forall|i: int| 0 <= i < right@.len() ==> #[trigger] right@[i] < keys@.len(),
        sorted_by(indices(left@), order_on(key_views(keys@))),
        sorted_by(indices(right@), order_on(key_views(keys@))),
    ensures
        sorted_by(indices(r@), order_on(key_views(keys@))),
        indices(r@).to_multiset() == (indices(left@) + indices(right@)).to_multiset(),
{
    broadcast use vstd::seq_lib::group_to_multiset_ensures;

    let ghost ord = order_on(key_views(keys@));
    let ghost l = indices(left@);
    let ghost t = indices(right@);
    proof {
        lemma_order_total(key_views(keys@));
    }
    let mut out: Vec<usize> = Vec::new();
    let mut i: usize = 0;
    let mut j: usize = 0;
    assert(l.take(0) + t.take(0) =~= Seq::<int>::empty());
    assert(indices(out@) =~= Seq::<int>::empty());
    while i < left.len() || j < right.len()
        invariant
            i <= left@.len(),
            j <= right@.len(),
            ord == order_on(key_views(keys@)),
            total_ordering(ord),
            l == indices(left@),
            t == indices(right@),
            forall|k: int| 0 <= k < left@.len() ==> #[trigger] left@[k] < keys@.len(),
            forall|k: int| 0 <= k < right@.len() ==> #[trigger] right@[k] < keys@.len(),
            sorted_by(l, ord),
            sorted_by(t, ord),
            sorted_by(indices(out@), ord),
            indices(out@).to_multiset() == (l.take(i as int) + t.take(j as int)).to_multiset(),
            forall|p: int, q: int|
                0 <= p < out@.len() && i <= q < l.len() ==> #[trigger] ord(
                    indices(out@)[p],
                    l[q],
                ),
            forall|p: int, q: int|
                0 <= p < out@.len() && j <= q < t.len() ==> #[trigger] ord(
                    indices(out@)[p],
                    t[q],
                ),
        decreases left.len() - i + right.len() - j,
    {
        let from_left: bool = if i < left.len() && j < right.len() {
            comes_first(keys, left[i], right[j])
        } else {
            i < left.len()
        };
        let ghost prev = indices(out@);
        if from_left {
            out.push(left[i]);
            assert(indices(out@) =~= prev.push(l[i as int]));
            assert(l.take(i + 1) + t.take(j as int) =~= (l.take(i as int) + t.take(
                j as int,
            )).insert(i as int, l[i as int]));
            proof {
                vstd::seq_lib::to_multiset_build(prev, l[i as int]);
                vstd::seq_lib::to_multiset_insert(
                    l.take(i as int) + t.take(j as int),
                    i as int,
                    l[i as int],
                );
            }
            assert forall|q: int| j <= q < t.len() implies #[trigger] ord(l[i as int], t[q]) by {
                assert(ord(l[i as int], t[j as int]));
                assert(q == j || ord(t[j as int], t[q]));
            }
            i += 1;
        } else {
            out.push(right[j]);
            assert(indices(out@) =~= prev.push(t[j as int]));
            assert(l.take(i as int) + t.take(j + 1) =~= (l.take(i as int) + t.take(
                j as int,
            )).push(t[j as int]));
            proof {
                vstd::seq_lib::to_multiset_build(prev, t[j as int]);
                vstd::seq_lib::to_multiset_build(l.take(i as int) + t.take(j as int), t[j as int]);
            }
            assert forall|q: int| i <= q < l.len() implies #[trigger] ord(t[j as int], l[q]) by {
                assert(!ord(l[i as int], t[j as int]));
                assert(ord(t[j as int], l[i as int]) || ord(l[i as int], t[j as int]));
                assert(ord(t[j as int], l[i as int]));
                assert(q == i || ord(l[i as int], l[q]));
            }
            j += 1;
        }
    }
    assert(l.take(i as int) =~= l);
    assert(t.take(j as int) =~= t);
    out
}

fn sort_range(keys: &Vec<Key>, lo: usize, hi: usize) -> (r: Vec<usize>)
    requires
        lo <= hi <= keys@.len(),
    ensures
        forall|i: int| 0 <= i < r@.len() ==> #[trigger] r@[i] < keys@.len(),
        sorted_by(indices(r@), order_on(key_views(keys@))),
        indices(r@).to_multiset() == range(lo as int, hi as int).to_multiset(),
    decreases hi - lo,
{
    broadcast use vstd::seq_lib::group_to_multiset_ensures;

    let mut out: Vec<usize> = Vec::new();
    if hi - lo <= 1 {
        if lo < hi {
            out.push(lo);
        }
        assert(indices(out@) =~= range(lo as int, hi as int));
        return out;
    }
    let mid: usize = lo + (hi - lo) / 2;
    let left: Vec<usize> = sort_range(keys, lo, mid);
    let right: Vec<usize> = sort_range(keys, mid, hi);
    let out: Vec<usize> = merge(keys, &left, &right);
    proof {
        let a = range(lo as int, mid as int);
        let b = range(mid as int, hi as int);
        assert(a + b =~= range(lo as int, hi as int));
        vstd::seq_lib::lemma_multiset_commutative(a, b);
        vstd::seq_lib::lemma_multiset_commutative(indices(left@), indices(right@));
        assert forall|i: int| 0 <= i < out@.len() implies #[trigger] out@[i] < keys@.len() by {
            let s = indices(out@);
            assert(s.contains(s[i]));
            assert(s.to_multiset().count(s[i]) > 0);
            assert(range(lo as int, hi as int).contains(s[i]));
        }
    }
    out
}

/// The stable order of a list of keys.
pub fn order_of(keys: &Vec<Key>) -> (r: Vec<usize>)
    ensures
        indices(r@) == stable_order(key_views(keys@)),
        forall|i: int| 0 <= i < r@.len() ==> #[trigger] r@[i] < keys@.len(),
        r@.len() == keys@.len(),
{
    let r: Vec<usize> = sort_range(keys, 0, keys.len());
    proof {
        let ks = key_views(keys@);
        let all = range(0, ks.len() as int);
        lemma_order_total(ks);
        all.lemma_sort_by_ensures(order_on(ks));
        vstd::seq_lib::lemma_sorted_unique(indices(r@), all.sort_by(order_on(ks)), order_on(ks));
        lemma_stable_order(ks);
        assert(indices(r@).len() == r@.len());
    }
    r
}

/// A key of one number.
pub fn number_key(n: u64) -> (r: Vec<u64>)
    ensures
        numbers(r@) == seq![n as int],
{
    let mut v: Vec<u64> = Vec::new();
    v.push(n);
    assert(numbers(v@) =~= seq![n as int]);
    v
}

/// A key of two numbers.
pub open spec fn pair(a: int, b: int) -> Seq<Seq<int>> {
    seq![seq![a, b]]
}

pub fn pair_key(a: u64, b: u64) -> (r: Key)
    ensures
        r@ == pair(a as int, b as int),
{
    let mut v: Vec<u64> = Vec::new();
    v.push(a);
    v.push(b);
    let mut parts: Vec<Vec<u64>> = Vec::new();
    assert(numbers(v@) =~= seq![a as int, b as int]);
    parts.push(v);
    let r: Key = Key { parts };
    assert(r@ =~= pair(a as int, b as int));
    r
}

/// Pairs are compared by their first numbers, then by their second.
pub proof fn lemma_pair_less(a: int, b: int, c: int, d: int)
    ensures
        key_less(pair(a, b), pair(c, d)) == (a < c || (a == c && b < d)),
        (pair(a, b) == pair(c, d)) == (a == c && b == d),
{
    let (x, y) = (seq![a, b], seq![c, d]);
    assert(x[0] == a && x[1] == b && y[0] == c && y[1] == d);
    assert(pair(a, b)[0] == x && pair(c, d)[0] == y);
    reveal_with_fuel(less, 3);
    reveal_with_fuel(key_less, 2);
    assert(x.drop_first() =~= seq![b]);
    assert(y.drop_first() =~= seq![d]);
    assert(seq![b].drop_first().len() == 0 && seq![d].drop_first().len() == 0);
    assert(pair(a, b).drop_first().len() == 0 && pair(c, d).drop_first().len() == 0);
    if a == c && b == d {
        assert(x =~= y);
    }
}

// ---------------------------------------------------------------------------
// Marked positions
// ---------------------------------------------------------------------------
/// The positions of the marks.
pub open spec fn marked(flags: Seq<bool>) -> Seq<int>
    decreases flags.len(),
{
    if flags.len() == 0 {
        Seq::empty()
    } else if flags.last() {
        marked(flags.drop_last()).push(flags.len() - 1)
    } else {
        marked(flags.drop_last())
    }
}

pub proof fn lemma_marked(flags: Seq<bool>)
    ensures
        forall|k: int|
            0 <= k < marked(flags).len() ==> 0 <= #[trigger] marked(flags)[k] < flags.len()
                && flags[marked(flags)[k]],
        forall|a: int, b: int|
            0 <= a < b < marked(flags).len() ==> #[trigger] marked(flags)[a]
                < #[trigger] marked(flags)[b],
        forall|i: int| 0 <= i < flags.len() && flags[i] ==> #[trigger] marked(flags).contains(i),
    decreases flags.len(),
{
    if flags.len() > 0 {
        let s = flags.drop_last();
        lemma_marked(s);
        let (m, n) = (marked(s), marked(flags));
        assert forall|k: int| 0 <= k < n.len() implies 0 <= #[trigger] n[k] < flags.len()
            && flags[n[k]] by {
            if k < m.len() {
                assert(n[k] == m[k]);
                assert(s[m[k]] == flags[m[k]]);
            }
        }
        assert forall|a: int, b: int| 0 <= a < b < n.len() implies #[trigger] n[a]
            < #[trigger] n[b] by {
            assert(n[a] == m[a]);
            if b < m.len() {
                assert(n[b] == m[b]);
            }
        }
        assert forall|i: int| 0 <= i < flags.len() && flags[i] implies #[trigger] n.contains(i) by {
            if i < s.len() {
                assert(s[i]);
                assert(m.contains(i));
                let k = choose|k: int| 0 <= k < m.len() && m[k] == i;
                assert(n[k] == i);
            } else {
                assert(n[n.len() - 1] == i);
            }
        }
    }
}

pub fn marked_positions(flags: &Vec<bool>) -> (r: Vec<usize>)
    ensures
        indices(r@) == marked(flags@),
        forall|k: int| 0 <= k < r@.len() ==> #[trigger] r@[k] < flags@.len(),
{
    let mut out: Vec<usize> = Vec::new();
    let mut i: usize = 0;
    assert(flags@.take(0) =~= Seq::<bool>::empty());
    assert(indices(out@) =~= Seq::<int>::empty());
    while i < flags.len()
        invariant
            i <= flags@.len(),
            indices(out@) == marked(flags@.take(i as int)),
            forall|k: int| 0 <= k < out@.len() ==> #[trigger] out@[k] < flags@.len(),
        decreases flags.len() - i,
    {
        let ghost was = indices(out@);
        assert(flags@.take(i + 1).drop_last() =~= flags@.take(i as int));
        assert(flags@.take(i + 1).last() == flags@[i as int]);
        if flags[i] {
            out.push(i);
            assert(indices(out@) =~= was.push(i as int));
        }
        i += 1;
    }
    assert(flags@.take(i as int) =~= flags@);
    out
}

} // verus!
