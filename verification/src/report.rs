//! Ranking candidates and reporting them.

use crate::detect::{candidate_recovery_class, pick, recovery_risk_rank};
#[allow(unused_imports)]
use crate::detect::risk_rank;
use crate::explain::recommended_command_for;
#[allow(unused_imports)]
use crate::explain::recommendation;
use crate::model::{Candidate, Category, CheckResult, FULL_CONFIDENCE, IMMEDIATE_THRESHOLD};
#[allow(unused_imports)]
use crate::model::{candidate_views, total_size, CandidateView};
use crate::order::{number_key, order_of, Key};
#[allow(unused_imports)]
use crate::order::{
    before, indices, key_less, key_views, lemma_stable_order, less, numbers, sorted_stably,
    stable_order,
};
use vstd::prelude::*;

verus! {

// ---------------------------------------------------------------------------
// Ranking
// ---------------------------------------------------------------------------
/// The higher score first; of equal scores the less risky class first.
pub open spec fn rank_key(c: CandidateView) -> Seq<Seq<int>> {
    let score = c.score() as int;
    seq![
        seq![
            0xffff_ffff_ffff_ffff - score / 0x1_0000_0000_0000_0000,
            0xffff_ffff_ffff_ffff - score % 0x1_0000_0000_0000_0000,
        ],
        seq![risk_rank(c.recovery_class()) as int],
    ]
}

pub open spec fn rank_keys(v: Seq<CandidateView>) -> Seq<Seq<Seq<int>>> {
    v.map_values(|c: CandidateView| rank_key(c))
}

/// The positions of the candidates by rank.
pub open spec fn rank_order(v: Seq<CandidateView>) -> Seq<int> {
    stable_order(rank_keys(v))
}

/// The candidates by rank.
pub open spec fn ranked(v: Seq<CandidateView>) -> Seq<CandidateView> {
    sorted_stably(v, rank_keys(v))
}

proof fn lemma_score_bound(c: CandidateView)
    ensures
        c.score() < 0x1_0000_0000_0000_0000 * 0x1_0000_0000,
{
    let (s, k) = (c.size_bytes as int, c.confidence as int);
    assert(s * k <= 0xffff_ffff_ffff_ffff * 0xffff_ffff) by (nonlinear_arith)
        requires
            0 <= s <= 0xffff_ffff_ffff_ffff,
            0 <= k <= 0xffff_ffff,
    ;
}

fn rank_key_of(c: &Candidate) -> (r: Key)
    ensures
        r@ == rank_key(c@),
{
    let score: u128 = c.score();
    proof {
        lemma_score_bound(c@);
    }
    let hi: u64 = (score / 0x1_0000_0000_0000_0000) as u64;
    let lo: u64 = (score % 0x1_0000_0000_0000_0000) as u64;
    let mut first: Vec<u64> = Vec::new();
    first.push(0xffff_ffff_ffff_ffff - hi);
    first.push(0xffff_ffff_ffff_ffff - lo);
    let mut parts: Vec<Vec<u64>> = Vec::new();
    assert(numbers(first@) =~= rank_key(c@)[0]);
    parts.push(first);
    parts.push(number_key(recovery_risk_rank(candidate_recovery_class(c)) as u64));
    let r: Key = Key { parts };
    assert(r@ =~= rank_key(c@));
    r
}

pub fn rank_positions(v: &Vec<Candidate>) -> (r: Vec<usize>)
    ensures
        indices(r@) == rank_order(candidate_views(v@)),
        r@.len() == v@.len(),
        forall|i: int| 0 <= i < r@.len() ==> #[trigger] r@[i] < v@.len(),
{
    let mut keys: Vec<Key> = Vec::new();
    let mut i: usize = 0;
    while i < v.len()
        invariant
            i <= v@.len(),
            keys@.len() == i,
            forall|j: int| 0 <= j < i ==> (#[trigger] keys@[j])@ == rank_key(v@[j]@),
        decreases v.len() - i,
    {
        keys.push(rank_key_of(&v[i]));
        i += 1;
    }
    assert(key_views(keys@) =~= rank_keys(candidate_views(v@)));
    order_of(&keys)
}

/// Sorts candidates by rank.
pub fn rank_candidates(v: &Vec<Candidate>) -> (r: Vec<Candidate>)
    ensures
        candidate_views(r@) == ranked(candidate_views(v@)),
{
    let order: Vec<usize> = rank_positions(v);
    pick(v, &order)
}

/// A candidate never stands before one with a higher score, nor before one with its own score
/// and a less risky class.
pub proof fn rank_orders_by_score_and_risk(v: Seq<CandidateView>, i: int, j: int)
    requires
        0 <= i < j < ranked(v).len(),
    ensures
        ({
            let (a, b) = (ranked(v)[i], ranked(v)[j]);
            a.score() > b.score() || (a.score() == b.score() && risk_rank(a.recovery_class())
                <= risk_rank(b.recovery_class()))
        }),
{
    let keys = rank_keys(v);
    let order = stable_order(keys);
    lemma_stable_order(keys);
    let (a, b) = (ranked(v)[i], ranked(v)[j]);
    assert(a == v[order[i]] && b == v[order[j]]);
    assert(before(keys, order[i], order[j]));
    let (x, y) = (rank_key(a), rank_key(b));
    assert(keys[order[i]] == x && keys[order[j]] == y);
    lemma_score_bound(a);
    lemma_score_bound(b);
    reveal_with_fuel(less, 3);
    if x[0] != y[0] {
        assert(less(x[0], y[0]));
        assert(x[0].drop_first()[0] == x[0][1] && y[0].drop_first()[0] == y[0][1]);
        if x[0][0] == y[0][0] {
            assert(x[0].drop_first() =~= seq![x[0][1]]);
            assert(y[0].drop_first() =~= seq![y[0][1]]);
            assert(x[0].drop_first().drop_first().len() == 0);
        }
    } else {
        assert(x[0][0] == y[0][0] && x[0][1] == y[0][1]);
        assert(a.score() == b.score());
        if x != y {
            assert(x.drop_first() =~= seq![x[1]]);
            assert(y.drop_first() =~= seq![y[1]]);
            assert(key_less(x.drop_first(), y.drop_first()));
            if x[1] == y[1] {
                assert(x =~= y);
            } else {
                assert(less(x[1], y[1]));
                assert(x[1].drop_first().len() == 0 && y[1].drop_first().len() == 0);
            }
        }
    }
}

/// Ranking loses and adds nothing.
pub proof fn rank_keeps_every_candidate(v: Seq<CandidateView>, i: int)
    requires
        0 <= i < v.len(),
    ensures
        ranked(v).len() == v.len(),
        ranked(v).contains(v[i]),
        v.contains(ranked(v)[i]),
{
    let order = stable_order(rank_keys(v));
    lemma_stable_order(rank_keys(v));
    assert(order.contains(i));
    let k = choose|k: int| 0 <= k < order.len() && order[k] == i;
    assert(ranked(v)[k] == v[i]);
    assert(ranked(v)[i] == v[order[i]]);
}

// ---------------------------------------------------------------------------
// Totals
// ---------------------------------------------------------------------------
pub open spec fn count_in(v: Seq<CandidateView>, category: Category) -> nat
    decreases v.len(),
{
    if v.len() == 0 {
        0
    } else {
        count_in(v.drop_last(), category) + if v.last().category == category {
            1nat
        } else {
            0
        }
    }
}

pub open spec fn bytes_in(v: Seq<CandidateView>, category: Category) -> nat
    decreases v.len(),
{
    if v.len() == 0 {
        0
    } else {
        bytes_in(v.drop_last(), category) + if v.last().category == category {
            v.last().size_bytes as nat
        } else {
            0
        }
    }
}

proof fn lemma_total_bound(v: Seq<CandidateView>)
    ensures
        total_size(v) <= v.len() * 0xffff_ffff_ffff_ffff,
    decreases v.len(),
{
    if v.len() > 0 {
        lemma_total_bound(v.drop_last());
        assert((v.len() - 1) * 0xffff_ffff_ffff_ffff + 0xffff_ffff_ffff_ffff == v.len()
            * 0xffff_ffff_ffff_ffff) by (nonlinear_arith);
    }
}

proof fn lemma_bytes_bound(v: Seq<CandidateView>, category: Category)
    ensures
        bytes_in(v, category) <= total_size(v),
        count_in(v, category) <= v.len(),
    decreases v.len(),
{
    if v.len() > 0 {
        lemma_bytes_bound(v.drop_last(), category);
    }
}

proof fn lemma_prefix_total(v: Seq<CandidateView>, i: int)
    requires
        0 <= i <= v.len(),
    ensures
        total_size(v.take(i)) <= total_size(v),
    decreases v.len() - i,
{
    if i < v.len() {
        assert(v.take(i + 1).drop_last() =~= v.take(i));
        lemma_prefix_total(v, i + 1);
    } else {
        assert(v.take(i) =~= v);
    }
}

/// The bytes of all candidates.
pub fn total_bytes(v: &Vec<Candidate>) -> (r: u128)
    ensures
        r == total_size(candidate_views(v@)),
{
    let ghost w = candidate_views(v@);
    let mut sum: u128 = 0;
    let mut i: usize = 0;
    proof {
        lemma_total_bound(w);
        assert(w.take(0) =~= Seq::<CandidateView>::empty());
        assert(v.len() * 0xffff_ffff_ffff_ffff <= 0xffff_ffff_ffff_ffff * 0xffff_ffff_ffff_ffff)
            by (nonlinear_arith)
            requires
                v.len() <= 0xffff_ffff_ffff_ffff,
        ;
    }
    while i < v.len()
        invariant
            i <= v@.len(),
            w == candidate_views(v@),
            total_size(w) <= 0xffff_ffff_ffff_ffff * 0xffff_ffff_ffff_ffff,
            sum == total_size(w.take(i as int)),
        decreases v.len() - i,
    {
        proof {
            assert(w.take(i + 1).drop_last() =~= w.take(i as int));
            assert(w.take(i + 1).last() == v@[i as int]@);
            lemma_prefix_total(w, i + 1);
        }
        sum = sum + v[i].size_bytes as u128;
        i += 1;
    }
    assert(w.take(i as int) =~= w);
    sum
}

/// A category with how many candidates it holds and their bytes.
#[derive(Debug, Clone, Copy, PartialEq, Eq, Structural)]
pub struct CategoryTotal {
    pub category: Category,
    pub count: usize,
    pub bytes: u128,
}

fn category_total(v: &Vec<Candidate>, category: Category) -> (r: CategoryTotal)
    ensures
        r.category == category,
        r.count == count_in(candidate_views(v@), category),
        r.bytes == bytes_in(candidate_views(v@), category),
{
    let ghost w = candidate_views(v@);
    let mut count: usize = 0;
    let mut bytes: u128 = 0;
    let mut i: usize = 0;
    proof {
        lemma_total_bound(w);
        assert(w.take(0) =~= Seq::<CandidateView>::empty());
        assert(v.len() * 0xffff_ffff_ffff_ffff <= 0xffff_ffff_ffff_ffff * 0xffff_ffff_ffff_ffff)
            by (nonlinear_arith)
            requires
                v.len() <= 0xffff_ffff_ffff_ffff,
        ;
    }
    while i < v.len()
        invariant
            i <= v@.len(),
            w == candidate_views(v@),
            total_size(w) <= 0xffff_ffff_ffff_ffff * 0xffff_ffff_ffff_ffff,
            count <= i,
            count == count_in(w.take(i as int), category),
            bytes == bytes_in(w.take(i as int), category),
        decreases v.len() - i,
    {
        proof {
            assert(w.take(i + 1).drop_last() =~= w.take(i as int));
            assert(w.take(i + 1).last() == v@[i as int]@);
            lemma_prefix_total(w, i + 1);
            lemma_bytes_bound(w.take(i + 1), category);
        }
        if v[i].category == category {
            count = count + 1;
            bytes = bytes + v[i].size_bytes as u128;
        }
        i += 1;
    }
    assert(w.take(i as int) =~= w);
    CategoryTotal { category, count, bytes }
}

/// The categories in the order of their names.
pub open spec fn categories() -> Seq<Category> {
    seq![
        Category::AppCache,
        Category::DevArtifact,
        Category::DownloadEntropy,
        Category::Unknown,
        Category::VmDisk,
    ]
}

/// For each category of the first `n` that holds a candidate, its count and bytes.
pub open spec fn rollup(v: Seq<CandidateView>, n: int) -> Seq<(Category, nat, nat)>
    decreases n,
{
    if n <= 0 {
        Seq::empty()
    } else {
        let c = categories()[n - 1];
        if count_in(v, c) > 0 {
            rollup(v, n - 1).push((c, count_in(v, c), bytes_in(v, c)))
        } else {
            rollup(v, n - 1)
        }
    }
}

pub open spec fn total_views(v: Seq<CategoryTotal>) -> Seq<(Category, nat, nat)> {
    v.map_values(|t: CategoryTotal| (t.category, t.count as nat, t.bytes as nat))
}

/// Counts and bytes by category, for the categories that hold a candidate.
pub fn category_rollup(v: &Vec<Candidate>) -> (r: Vec<CategoryTotal>)
    ensures
        total_views(r@) == rollup(candidate_views(v@), 5),
{
    let ghost w = candidate_views(v@);
    let mut order: Vec<Category> = Vec::new();
    order.push(Category::AppCache);
    order.push(Category::DevArtifact);
    order.push(Category::DownloadEntropy);
    order.push(Category::Unknown);
    order.push(Category::VmDisk);
    assert(order@ =~= categories());
    let mut out: Vec<CategoryTotal> = Vec::new();
    let mut i: usize = 0;
    assert(total_views(out@) =~= rollup(w, 0));
    while i < order.len()
        invariant
            i <= order@.len(),
            order@ == categories(),
            w == candidate_views(v@),
            total_views(out@) == rollup(w, i as int),
        decreases order.len() - i,
    {
        let t: CategoryTotal = category_total(v, order[i]);
        let ghost prev = total_views(out@);
        if t.count > 0 {
            out.push(t);
            assert(total_views(out@) =~= prev.push(
                (t.category, t.count as nat, t.bytes as nat),
            ));
        }
        i += 1;
    }
    out
}

/// The categories share out the total: their bytes add up to it, and their counts to the
/// number of candidates.
pub proof fn categories_add_up(v: Seq<CandidateView>)
    ensures
        bytes_in(v, Category::AppCache) + bytes_in(v, Category::DevArtifact) + bytes_in(
            v,
            Category::DownloadEntropy,
        ) + bytes_in(v, Category::Unknown) + bytes_in(v, Category::VmDisk) == total_size(v),
        count_in(v, Category::AppCache) + count_in(v, Category::DevArtifact) + count_in(
            v,
            Category::DownloadEntropy,
        ) + count_in(v, Category::Unknown) + count_in(v, Category::VmDisk) == v.len(),
    decreases v.len(),
{
    if v.len() > 0 {
        categories_add_up(v.drop_last());
    }
}

// ---------------------------------------------------------------------------
// The report
// ---------------------------------------------------------------------------
/// The version of the report's shape.
pub const DETECT_JSON_SCHEMA_VERSION: u32 = 2;

/// What the whole set offers, with the candidates that are shown.
pub struct DetectReport {
    pub total_candidates: usize,
    pub total_reclaimable: u128,
    pub rollup: Vec<CategoryTotal>,
    pub shown: Vec<Candidate>,
}

/// Ranks the candidates and reports all of them or the first `top`. The totals are those of
/// the whole set, whatever is shown.
pub fn detect_report(candidates: &Vec<Candidate>, show_all: bool, top: usize) -> (r: DetectReport)
    ensures
        r.total_candidates == candidates@.len(),
        r.total_reclaimable == total_size(ranked(candidate_views(candidates@))),
        total_views(r.rollup@) == rollup(ranked(candidate_views(candidates@)), 5),
        candidate_views(r.shown@) == (if show_all || top >= candidates@.len() {
            ranked(candidate_views(candidates@))
        } else {
            ranked(candidate_views(candidates@)).take(top as int)
        }),
{
    let mut all: Vec<Candidate> = rank_candidates(candidates);
    proof {
        lemma_stable_order(rank_keys(candidate_views(candidates@)));
        assert(candidate_views(all@).len() == all@.len());
    }
    let total_candidates: usize = all.len();
    let total_reclaimable: u128 = total_bytes(&all);
    let rollup: Vec<CategoryTotal> = category_rollup(&all);
    let ghost w = candidate_views(all@);
    if !show_all && top < all.len() {
        all.truncate(top);
        assert(candidate_views(all@) =~= w.take(top as int));
    }
    DetectReport { total_candidates, total_reclaimable, rollup, shown: all }
}

/// One candidate of the report for agents.
pub struct DetectRow {
    pub candidate: Candidate,
    pub recommended_command: String,
    pub recovery_class: String,
}

pub struct DetectMeta {
    pub schema_version: u32,
    pub immediate_threshold: u32,
    pub total_reclaimable_bytes: u128,
    pub total_candidates: usize,
    pub shown: usize,
}

pub struct DetectPayload {
    pub meta: DetectMeta,
    pub candidates: Vec<DetectRow>,
}

/// A row carries the candidate, its recovery class and the command that its own confidence
/// recommends.
pub open spec fn row_of(row: DetectRow, c: CandidateView) -> bool {
    &&& row.candidate@ == c
    &&& row.recommended_command@ == recommendation(c.path, Some(c.confidence), true)
    &&& row.recovery_class@ == c.recovery_class()
}

/// The report for agents.
pub fn detect_json_payload(
    shown: &Vec<Candidate>,
    total_candidates: usize,
    total_reclaimable_all: u128,
) -> (r: DetectPayload)
    ensures
        r.meta.schema_version == DETECT_JSON_SCHEMA_VERSION,
        r.meta.immediate_threshold == IMMEDIATE_THRESHOLD,
        r.meta.total_reclaimable_bytes == total_reclaimable_all,
        r.meta.total_candidates == total_candidates,
        r.meta.shown == shown@.len(),
        r.candidates@.len() == shown@.len(),
        forall|i: int| 0 <= i < shown@.len() ==> row_of(#[trigger] r.candidates@[i], shown@[i]@),
{
    let pressure: CheckResult = CheckResult::gate(
        "(detect)".to_owned(),
        true,
        FULL_CONFIDENCE,
        Vec::new(),
    );
    let mut rows: Vec<DetectRow> = Vec::new();
    let mut i: usize = 0;
    while i < shown.len()
        invariant
            i <= shown@.len(),
            pressure.safe,
            rows@.len() == i,
            forall|j: int| 0 <= j < i ==> row_of(#[trigger] rows@[j], shown@[j]@),
        decreases shown.len() - i,
    {
        let c: &Candidate = &shown[i];
        rows.push(
            DetectRow {
                candidate: c.duplicate(),
                recommended_command: recommended_command_for(
                    c.path.as_str(),
                    Some(c.confidence),
                    &pressure,
                ),
                recovery_class: candidate_recovery_class(c).to_owned(),
            },
        );
        i += 1;
    }
    DetectPayload {
        meta: DetectMeta {
            schema_version: DETECT_JSON_SCHEMA_VERSION,
            immediate_threshold: IMMEDIATE_THRESHOLD,
            total_reclaimable_bytes: total_reclaimable_all,
            total_candidates,
            shown: shown.len(),
        },
        candidates: rows,
    }
}

/// The process exit code of a command that works on candidates: 1 where there is none.
pub open spec fn supply_code(count: nat) -> i32 {
    if count == 0 {
        1
    } else {
        0
    }
}

pub fn supply_exit(count: usize) -> (r: i32)
    ensures
        r == supply_code(count as nat),
{
    if count == 0 {
        1
    } else {
        0
    }
}

} // verus!
