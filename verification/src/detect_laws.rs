//! What holds of every list of candidates.

use crate::detect::{
    adjusted, by_path, candidates_of, dedup, hit_table, listed, marked, measured_at, nested,
    outermost, path_keys, path_rank, proposable, proposals, proposed, risk_rank, row, row_marks,
    selected, settled, shield, suggestion_barred, survey_of, Survey,
};
use crate::globs::{glob_matches, literal, tree};
use crate::model::{entry_views, CandidateView, Metrics, Profile, RuleView, ScanResult};
use crate::order::{
    before, key_less, lemma_key_less_irreflexive, lemma_key_less_transitive, lemma_stable_order,
    less, sorted_stably, stable_order,
};
use crate::paths::{
    expanded, lemma_key_names_path, lemma_under_reflexive, lemma_under_transitive, part_key, parts,
    path_key, same_path, under,
};
use vstd::prelude::*;

verus! {

/// `a` is the better of two candidates for one path: it is more confident, or as confident and
/// no riskier.
pub open spec fn preferred(a: CandidateView, b: CandidateView) -> bool {
    a.confidence > b.confidence || (a.confidence == b.confidence && risk_rank(a.recovery_class())
        <= risk_rank(b.recovery_class()))
}

spec fn not_later(a: Seq<Seq<int>>, b: Seq<Seq<int>>) -> bool {
    a == b || key_less(a, b)
}

spec fn in_order(v: Seq<CandidateView>) -> bool {
    forall|i: int, j: int|
        0 <= i < j < v.len() ==> not_later(by_path(#[trigger] v[i]), by_path(#[trigger] v[j]))
}

spec fn increasing(v: Seq<CandidateView>) -> bool {
    forall|i: int, j: int|
        0 <= i < j < v.len() ==> key_less(
            path_key((#[trigger] v[i]).path),
            path_key((#[trigger] v[j]).path),
        )
}

/// Keys of components that are not empty, each followed by a tail that starts with an empty
/// component, compare by the keys first and by the tails second.
proof fn lemma_compare_tails(p: Seq<Seq<int>>, t: Seq<Seq<int>>, q: Seq<Seq<int>>, u: Seq<Seq<int>>)
    requires
        forall|i: int| 0 <= i < p.len() ==> (#[trigger] p[i]).len() > 0,
        forall|i: int| 0 <= i < q.len() ==> (#[trigger] q[i]).len() > 0,
        t.len() > 0,
        u.len() > 0,
        t[0].len() == 0,
        u[0].len() == 0,
        not_later(p + t, q + u),
    ensures
        key_less(p, q) || (p == q && not_later(t, u)),
    decreases p.len(),
{
    let a = p + t;
    let b = q + u;
    if p.len() == 0 && q.len() == 0 {
        assert(a =~= t && b =~= u && p =~= q);
    } else if p.len() == 0 {
    } else if q.len() == 0 {
        assert(a[0] == p[0] && b[0] == u[0]);
        assert(a[0].len() > 0 && b[0].len() == 0);
        assert(a != b);
        assert(false);
    } else {
        assert(a[0] == p[0] && b[0] == q[0]);
        if p[0] == q[0] {
            let (p1, q1) = (p.drop_first(), q.drop_first());
            assert(a.drop_first() =~= p1 + t);
            assert(b.drop_first() =~= q1 + u);
            assert forall|i: int| 0 <= i < p1.len() implies (#[trigger] p1[i]).len() > 0 by {
                assert(p1[i] == p[i + 1]);
            }
            assert forall|i: int| 0 <= i < q1.len() implies (#[trigger] q1[i]).len() > 0 by {
                assert(q1[i] == q[i + 1]);
            }
            lemma_compare_tails(p1, t, q1, u);
            if p1 == q1 {
                assert(p =~= seq![p[0]] + p1);
                assert(q =~= seq![q[0]] + q1);
            }
        }
    }
}

proof fn lemma_by_path(a: CandidateView, b: CandidateView)
    requires
        not_later(by_path(a), by_path(b)),
    ensures
        not_later(path_key(a.path), path_key(b.path)),
        path_key(a.path) == path_key(b.path) ==> preferred(a, b),
{
    let (p, q) = (path_key(a.path), path_key(b.path));
    assert forall|i: int| 0 <= i < p.len() implies (#[trigger] p[i]).len() > 0 by {
        assert(p[i] == part_key(parts(a.path)[i]));
    }
    assert forall|i: int| 0 <= i < q.len() implies (#[trigger] q[i]).len() > 0 by {
        assert(q[i] == part_key(parts(b.path)[i]));
    }
    lemma_compare_tails(p, path_rank(a), q, path_rank(b));
    lemma_key_less_irreflexive(p);
    if p == q {
        let (t, u) = (path_rank(a), path_rank(b));
        assert(t[1][0] == 0xffff_ffff - a.confidence && u[1][0] == 0xffff_ffff - b.confidence);
        assert(t[2][0] == risk_rank(a.recovery_class()) && u[2][0] == risk_rank(
            b.recovery_class(),
        ));
        if t != u {
            let (t1, u1) = (t.drop_first(), u.drop_first());
            assert(key_less(t, u) == key_less(t1, u1));
            assert(t1[0] == t[1] && u1[0] == u[1]);
            if t1[0] == u1[0] {
                let (t2, u2) = (t1.drop_first(), u1.drop_first());
                assert(t2[0] == t[2] && u2[0] == u[2]);
                assert(key_less(t2, u2));
                if t2[0] != u2[0] {
                    assert(less(t2[0], u2[0]));
                    assert(t2[0][0] == t[2][0] && u2[0][0] == u[2][0]);
                    reveal_with_fuel(less, 2);
                } else {
                    assert(t2.drop_first().len() == 0 && u2.drop_first().len() == 0);
                }
            } else {
                assert(less(t1[0], u1[0]));
                assert(t1[0][0] == t[1][0] && u1[0][0] == u[1][0]);
                reveal_with_fuel(less, 2);
            }
        }
    }
}

proof fn lemma_sorted(all: Seq<CandidateView>)
    ensures
        in_order(sorted_stably(all, path_keys(all))),
        sorted_stably(all, path_keys(all)).len() == all.len(),
        forall|i: int|
            0 <= i < all.len() ==> sorted_stably(all, path_keys(all)).contains(#[trigger] all[i]),
        forall|i: int|
            0 <= i < all.len() ==> all.contains(#[trigger] sorted_stably(all, path_keys(all))[i]),
{
    let keys = path_keys(all);
    let order = stable_order(keys);
    let s = sorted_stably(all, keys);
    lemma_stable_order(keys);
    assert(s.len() == all.len());
    assert forall|i: int, j: int| 0 <= i < j < s.len() implies not_later(
        by_path(#[trigger] s[i]),
        by_path(#[trigger] s[j]),
    ) by {
        assert(before(keys, order[i], order[j]));
        assert(keys[order[i]] == by_path(s[i]) && keys[order[j]] == by_path(s[j]));
    }
    assert forall|i: int| 0 <= i < all.len() implies s.contains(#[trigger] all[i]) by {
        assert(order.contains(i));
        let k = choose|k: int| 0 <= k < order.len() && order[k] == i;
        assert(s[k] == all[i]);
    }
    assert forall|i: int| 0 <= i < all.len() implies all.contains(#[trigger] s[i]) by {
        assert(s[i] == all[order[i]]);
    }
}

/// `d` holds a candidate for the path of `c` that comes no later than `c`.
spec fn represented(d: Seq<CandidateView>, c: CandidateView) -> bool {
    exists|j: int| 0 <= j < d.len() && stands_for(#[trigger] d[j], c)
}

spec fn stands_for(a: CandidateView, c: CandidateView) -> bool {
    same_path(a.path, c.path) && not_later(by_path(a), by_path(c))
}

proof fn lemma_grown(kept: Seq<CandidateView>, last: CandidateView)
    requires
        kept.len() > 0,
        increasing(kept),
        key_less(path_key(kept.last().path), path_key(last.path)),
    ensures
        increasing(kept.push(last)),
{
    let d = kept.push(last);
    assert forall|i: int, j: int| 0 <= i < j < d.len() implies key_less(
        path_key((#[trigger] d[i]).path),
        path_key((#[trigger] d[j]).path),
    ) by {
        assert(d[i] == kept[i]);
        if j < kept.len() {
            assert(d[j] == kept[j]);
        } else if i < kept.len() - 1 {
            assert(key_less(path_key(kept[i].path), path_key(kept[kept.len() - 1].path)));
            lemma_key_less_transitive(
                path_key(kept[i].path),
                path_key(kept.last().path),
                path_key(last.path),
            );
        }
    }
}

proof fn lemma_dedup(v: Seq<CandidateView>)
    requires
        in_order(v),
    ensures
        v.len() > 0 ==> dedup(v).len() > 0,
        increasing(dedup(v)),
        forall|i: int| 0 <= i < dedup(v).len() ==> v.contains(#[trigger] dedup(v)[i]),
        forall|i: int| 0 <= i < v.len() ==> represented(dedup(v), #[trigger] v[i]),
    decreases v.len(),
{
    let d = dedup(v);
    if v.len() <= 1 {
        assert forall|i: int| 0 <= i < v.len() implies represented(d, #[trigger] v[i]) by {
            assert(stands_for(d[i], v[i]));
        }
        assert forall|i: int| 0 <= i < d.len() implies v.contains(#[trigger] d[i]) by {
            assert(v[i] == d[i]);
        }
    } else {
        let w = v.drop_last();
        let kept = dedup(w);
        let last = v.last();
        assert(in_order(w)) by {
            assert forall|i: int, j: int| 0 <= i < j < w.len() implies not_later(
                by_path(#[trigger] w[i]),
                by_path(#[trigger] w[j]),
            ) by {
                assert(w[i] == v[i] && w[j] == v[j]);
            }
        }
        lemma_dedup(w);
        let n = kept.len() - 1;
        assert(w.contains(kept[n]));
        let k = choose|k: int| 0 <= k < w.len() && w[k] == kept[n];
        assert(v[k] == kept[n] && v[v.len() - 1] == last);
        assert(not_later(by_path(v[k]), by_path(v[v.len() - 1])));
        lemma_by_path(kept[n], last);
        lemma_key_names_path(kept[n].path, last.path);
        let grown = !same_path(kept.last().path, last.path);
        if grown {
            lemma_grown(kept, last);
            assert(d == kept.push(last));
        } else {
            assert(d == kept);
        }
        assert forall|i: int| 0 <= i < d.len() implies v.contains(#[trigger] d[i]) by {
            if i < kept.len() {
                assert(d[i] == kept[i]);
                assert(w.contains(kept[i]));
                let m = choose|m: int| 0 <= m < w.len() && w[m] == kept[i];
                assert(v[m] == d[i]);
            } else {
                assert(v[v.len() - 1] == d[i]);
            }
        }
        assert forall|i: int| 0 <= i < v.len() implies represented(d, #[trigger] v[i]) by {
            if i < w.len() {
                assert(represented(kept, w[i]));
                let j = choose|j: int| 0 <= j < kept.len() && stands_for(#[trigger] kept[j], w[i]);
                assert(stands_for(d[j], v[i]));
            } else if grown {
                assert(stands_for(d[kept.len() as int], v[i]));
            } else {
                assert(stands_for(d[n], v[i]));
            }
        }
    }
}

proof fn lemma_filter(v: Seq<CandidateView>, keep: spec_fn(CandidateView) -> bool)
    requires
        increasing(v),
    ensures
        increasing(v.filter(keep)),
        forall|i: int|
            0 <= i < v.filter(keep).len() ==> v.contains(#[trigger] v.filter(keep)[i]) && keep(
                v.filter(keep)[i],
            ),
        forall|i: int| 0 <= i < v.len() && keep(v[i]) ==> v.filter(keep).contains(#[trigger] v[i]),
    decreases v.len(),
{
    reveal(Seq::filter);
    let f = v.filter(keep);
    if v.len() > 0 {
        let w = v.drop_last();
        let g = w.filter(keep);
        assert(increasing(w));
        lemma_filter(w, keep);
        assert forall|i: int| 0 <= i < g.len() implies v.contains(#[trigger] g[i]) && keep(g[i])
            && key_less(path_key(g[i].path), path_key(v.last().path)) by {
            assert(w.contains(g[i]));
            let n = choose|n: int| 0 <= n < w.len() && w[n] == g[i];
            assert(v[n] == g[i]);
            assert(key_less(path_key(v[n].path), path_key(v[v.len() - 1].path)));
        }
        if keep(v.last()) {
            assert(f == g.push(v.last()));
            assert(v[v.len() - 1] == f.last());
            assert forall|i: int, j: int| 0 <= i < j < f.len() implies key_less(
                path_key((#[trigger] f[i]).path),
                path_key((#[trigger] f[j]).path),
            ) by {
                if j < g.len() {
                    assert(key_less(path_key(g[i].path), path_key(g[j].path)));
                } else {
                    assert(f[i] == g[i]);
                }
            }
            assert forall|i: int| 0 <= i < f.len() implies v.contains(#[trigger] f[i]) && keep(
                f[i],
            ) by {
                if i < g.len() {
                    assert(f[i] == g[i]);
                }
            }
        }
        assert forall|i: int| 0 <= i < v.len() && keep(v[i]) implies f.contains(
            #[trigger] v[i],
        ) by {
            if i < w.len() {
                assert(w[i] == v[i]);
                assert(g.contains(w[i]));
                let n = choose|n: int| 0 <= n < g.len() && g[n] == w[i];
                assert(f[n] == v[i]);
            } else {
                assert(f[f.len() - 1] == v[i]);
            }
        }
    }
}

proof fn lemma_settled(all: Seq<CandidateView>) -> (d: Seq<CandidateView>)
    ensures
        d == dedup(sorted_stably(all, path_keys(all))),
        settled(all) == outermost(d),
        increasing(d),
        increasing(settled(all)),
        forall|i: int|
            0 <= i < settled(all).len() ==> d.contains(#[trigger] settled(all)[i]) && !nested(
                settled(all)[i],
                d,
            ),
        forall|i: int|
            0 <= i < d.len() && !nested(d[i], d) ==> settled(all).contains(#[trigger] d[i]),
        forall|i: int| 0 <= i < d.len() ==> all.contains(#[trigger] d[i]),
        forall|i: int|
            0 <= i < all.len() ==> exists|j: int|
                0 <= j < d.len() && same_path((#[trigger] d[j]).path, (#[trigger] all[i]).path)
                    && preferred(d[j], all[i]),
{
    let s = sorted_stably(all, path_keys(all));
    let d = dedup(s);
    lemma_sorted(all);
    lemma_dedup(s);
    lemma_filter(d, |c: CandidateView| !nested(c, d));
    assert forall|i: int| 0 <= i < d.len() implies all.contains(#[trigger] d[i]) by {
        assert(s.contains(d[i]));
        let n = choose|n: int| 0 <= n < s.len() && s[n] == d[i];
        assert(all.contains(s[n]));
    }
    assert forall|i: int| 0 <= i < all.len() implies exists|j: int|
        0 <= j < d.len() && same_path((#[trigger] d[j]).path, (#[trigger] all[i]).path)
            && preferred(d[j], all[i]) by {
        assert(s.contains(all[i]));
        let n = choose|n: int| 0 <= n < s.len() && s[n] == all[i];
        assert(represented(d, s[n]));
        let j = choose|j: int| 0 <= j < d.len() && stands_for(#[trigger] d[j], s[n]);
        lemma_by_path(d[j], s[n]);
        lemma_key_names_path(d[j].path, s[n].path);
        assert(same_path(d[j].path, all[i].path));
    }
    d
}

/// Candidates are listed in the strict order of their paths, component by component.
pub proof fn listed_in_path_order(all: Seq<CandidateView>, i: int, j: int)
    requires
        0 <= i < j < settled(all).len(),
    ensures
        key_less(path_key(settled(all)[i].path), path_key(settled(all)[j].path)),
{
    let d = lemma_settled(all);
}

/// No path is listed twice.
pub proof fn every_path_once(all: Seq<CandidateView>, i: int, j: int)
    requires
        0 <= i < settled(all).len(),
        0 <= j < settled(all).len(),
        i != j,
    ensures
        !same_path(settled(all)[i].path, settled(all)[j].path),
{
    let d = lemma_settled(all);
    let s = settled(all);
    let (a, b) = if i < j {
        (i, j)
    } else {
        (j, i)
    };
    assert(key_less(path_key(s[a].path), path_key(s[b].path)));
    lemma_key_less_irreflexive(path_key(s[a].path));
    lemma_key_names_path(s[a].path, s[b].path);
}

/// No listed path lies inside another, so no byte is counted twice.
pub proof fn no_path_inside_another(all: Seq<CandidateView>, i: int, j: int)
    requires
        0 <= i < settled(all).len(),
        0 <= j < settled(all).len(),
        i != j,
    ensures
        !under(settled(all)[i].path, settled(all)[j].path),
{
    let d = lemma_settled(all);
    let s = settled(all);
    every_path_once(all, i, j);
    if under(s[i].path, s[j].path) {
        assert(d.contains(s[j]));
        let n = choose|n: int| 0 <= n < d.len() && d[n] == s[j];
        assert(!same_path(s[i].path, d[n].path) && under(s[i].path, d[n].path));
        assert(nested(s[i], d));
    }
}

/// Every listed candidate is one that some rule proposed.
pub proof fn only_proposals_listed(all: Seq<CandidateView>, i: int)
    requires
        0 <= i < settled(all).len(),
    ensures
        all.contains(settled(all)[i]),
{
    let d = lemma_settled(all);
    assert(d.contains(settled(all)[i]));
    let n = choose|n: int| 0 <= n < d.len() && d[n] == settled(all)[i];
    assert(all.contains(d[n]));
}

proof fn lemma_has_outermost(d: Seq<CandidateView>, n: int) -> (m: int)
    requires
        0 <= n < d.len(),
    ensures
        0 <= m < d.len(),
        under(d[n].path, d[m].path),
        !nested(d[m], d),
    decreases parts(d[n].path).len(),
{
    if nested(d[n], d) {
        let k = choose|k: int|
            0 <= k < d.len() && !same_path(d[n].path, (#[trigger] d[k]).path) && under(
                d[n].path,
                d[k].path,
            );
        assert(parts(d[k].path).len() < parts(d[n].path).len()) by {
            if parts(d[k].path).len() == parts(d[n].path).len() {
                assert(parts(d[n].path).subrange(0, parts(d[k].path).len() as int) =~= parts(
                    d[n].path,
                ));
            }
        }
        let m = lemma_has_outermost(d, k);
        lemma_under_transitive(d[n].path, d[k].path, d[m].path);
        m
    } else {
        lemma_under_reflexive(d[n].path);
        n
    }
}

/// No proposal is lost: its path is listed or lies inside a listed one.
pub proof fn every_proposal_covered(all: Seq<CandidateView>, i: int)
    requires
        0 <= i < all.len(),
    ensures
        exists|j: int|
            0 <= j < settled(all).len() && under(all[i].path, (#[trigger] settled(all)[j]).path),
{
    let d = lemma_settled(all);
    let s = settled(all);
    let n = choose|n: int|
        0 <= n < d.len() && same_path((#[trigger] d[n]).path, all[i].path) && preferred(
            d[n],
            all[i],
        );
    let m = lemma_has_outermost(d, n);
    assert(s.contains(d[m]));
    let j = choose|j: int| 0 <= j < s.len() && s[j] == d[m];
    assert(under(all[i].path, s[j].path));
}

/// Of the proposals for one path the best is listed.
pub proof fn best_of_a_path_listed(all: Seq<CandidateView>, i: int, j: int)
    requires
        0 <= i < all.len(),
        0 <= j < settled(all).len(),
        same_path(all[i].path, settled(all)[j].path),
    ensures
        preferred(settled(all)[j], all[i]),
{
    let d = lemma_settled(all);
    let s = settled(all);
    let n = choose|n: int|
        0 <= n < d.len() && same_path((#[trigger] d[n]).path, all[i].path) && preferred(
            d[n],
            all[i],
        );
    assert(d.contains(s[j]));
    let m = choose|m: int| 0 <= m < d.len() && d[m] == s[j];
    lemma_key_names_path(d[n].path, d[m].path);
    lemma_key_less_irreflexive(path_key(d[n].path));
    if n < m {
        assert(key_less(path_key(d[n].path), path_key(d[m].path)));
    } else if m < n {
        assert(key_less(path_key(d[m].path), path_key(d[n].path)));
    }
}

// ---------------------------------------------------------------------------
// Where proposals come from
// ---------------------------------------------------------------------------
proof fn lemma_row_origin(rule: RuleView, hits: Seq<bool>, sv: Survey, n: int, c: CandidateView)
    requires
        n <= sv.entries.len(),
        row(rule, hits, sv, n).contains(c),
    ensures
        exists|e: int|
            0 <= e < n && #[trigger] selected(rule, hits, sv, e) && c == proposed(
                rule,
                sv.entries[e],
                sv.prof,
                sv.now,
                measured_at(sv.measured, e),
            ),
    decreases n,
{
    let r = row(rule, hits, sv, n);
    let k = choose|k: int| 0 <= k < r.len() && r[k] == c;
    if n > 0 {
        let prev = row(rule, hits, sv, n - 1);
        if k < prev.len() {
            assert(prev[k] == c);
            lemma_row_origin(rule, hits, sv, n - 1, c);
        } else {
            assert(selected(rule, hits, sv, n - 1));
        }
    }
}

pub proof fn lemma_proposal_origin(
    rules: Seq<RuleView>,
    hits: Seq<Seq<bool>>,
    sv: Survey,
    m: int,
    c: CandidateView,
)
    requires
        m <= rules.len(),
        proposals(rules, hits, sv, m).contains(c),
    ensures
        exists|r: int, e: int|
            0 <= r < m && 0 <= e < sv.entries.len() && #[trigger] selected(
                rules[r],
                row_marks(hits, r),
                sv,
                e,
            ) && c == proposed(
                rules[r],
                sv.entries[e],
                sv.prof,
                sv.now,
                measured_at(sv.measured, e),
            ),
    decreases m,
{
    let p = proposals(rules, hits, sv, m);
    let k = choose|k: int| 0 <= k < p.len() && p[k] == c;
    if m > 0 {
        let prev = proposals(rules, hits, sv, m - 1);
        let line = row(rules[m - 1], row_marks(hits, m - 1), sv, sv.entries.len() as int);
        if k < prev.len() {
            assert(prev[k] == c);
            lemma_proposal_origin(rules, hits, sv, m - 1, c);
        } else {
            assert(line[k - prev.len()] == c);
            lemma_row_origin(
                rules[m - 1],
                row_marks(hits, m - 1),
                sv,
                sv.entries.len() as int,
                c,
            );
            let e = choose|e: int|
                0 <= e < sv.entries.len() && #[trigger] selected(
                    rules[m - 1],
                    row_marks(hits, m - 1),
                    sv,
                    e,
                ) && c == proposed(
                    rules[m - 1],
                    sv.entries[e],
                    sv.prof,
                    sv.now,
                    measured_at(sv.measured, e),
                );
            assert(selected(rules[m - 1], row_marks(hits, m - 1), sv, e));
        }
    }
}

/// A path on the never-touch list is never a candidate; nor is one that the profile bars from
/// suggestions, or one below the size that the profile asks for.
pub proof fn profile_is_obeyed(
    scan: ScanResult,
    rules: Seq<RuleView>,
    prof: Profile,
    home: Seq<char>,
    now: i64,
    measured: Seq<Option<Metrics>>,
    i: int,
)
    requires
        0 <= i < candidates_of(scan, rules, prof, home, now, measured).len(),
    ensures
        ({
            let c = candidates_of(scan, rules, prof, home, now, measured)[i];
            &&& !listed(c.path, prof@.never_touch, home)
            &&& !suggestion_barred(c.path, prof@.never_suggest)
            &&& c.size_bytes > 0
            &&& c.size_bytes >= prof@.min_candidate_bytes
        }),
{
    let entries = entry_views(scan.entries@);
    let hits = hit_table(rules, entries, home);
    let sv = survey_of(scan, prof, now, measured, shield(entries, prof@, home));
    let all = proposals(rules, hits, sv, rules.len() as int);
    let c = settled(all)[i];
    only_proposals_listed(all, i);
    lemma_proposal_origin(rules, hits, sv, rules.len() as int, c);
    let (r, e) = choose|r: int, e: int|
        0 <= r < rules.len() && 0 <= e < sv.entries.len() && #[trigger] selected(
            rules[r],
            row_marks(hits, r),
            sv,
            e,
        ) && c == proposed(
            rules[r],
            sv.entries[e],
            sv.prof,
            sv.now,
            measured_at(sv.measured, e),
        );
    assert(sv.shielded[e] == listed(sv.entries[e].path, prof@.never_touch, home));
    assert(proposable(rules[r], sv.entries[e], sv.prof, sv.now, marked(sv.shielded, e)));
}

/// A domain that the user has left raises a rule's confidence, up to 0.99.
pub proof fn inactivity_raises_confidence(base: u32, recent: bool)
    requires
        base <= 990_000,
    ensures
        adjusted(base, true, recent) >= adjusted(base, false, recent),
{
}

/// An entry that was touched of late never counts for more than one that was not.
pub proof fn recency_lowers_confidence(base: u32, inactive: bool)
    ensures
        adjusted(base, inactive, true) <= adjusted(base, inactive, false),
{
}

/// A path that the profile names, or that lies in a directory that it lists with `/**` behind it,
/// is never a candidate.
pub proof fn named_path_is_never_a_candidate(
    scan: ScanResult,
    rules: Seq<RuleView>,
    prof: Profile,
    home: Seq<char>,
    now: i64,
    measured: Seq<Option<Metrics>>,
    i: int,
    j: int,
)
    requires
        0 <= i < candidates_of(scan, rules, prof, home, now, measured).len(),
        0 <= j < prof@.never_touch.len(),
    ensures
        ({
            let path = candidates_of(scan, rules, prof, home, now, measured)[i].path;
            let p = expanded(prof@.never_touch[j], home);
            &&& literal(p) ==> path != p
            &&& tree(p) ==> !p.take(p.len() - 2).is_prefix_of(path)
        }),
{
    profile_is_obeyed(scan, rules, prof, home, now, measured, i);
    let path = candidates_of(scan, rules, prof, home, now, measured)[i].path;
    let p = expanded(prof@.never_touch[j], home);
    assert(!glob_matches(expanded(prof@.never_touch[j], home), path));
    if tree(p) {
        assert(p[p.len() - 1] == '*');
    }
}

} // verus!
