//! Plans by their content: where they are kept, and the hash that names them.

use crate::doctor::{parse_size, Mode, PlanStep};
#[allow(unused_imports)]
use crate::doctor::{plan_step_views, size_in, PlanStepView};
use crate::order::{order_of, Key};
#[allow(unused_imports)]
use crate::order::{
    before, indices, key_less, key_views, lemma_key_less_asymmetric, lemma_stable_order, numbers,
    sorted_stably, stable_order,
};
use crate::paths::join_path;
#[allow(unused_imports)]
use crate::paths::joined_path;
#[allow(unused_imports)]
use crate::text::{lowered, trimmed};
use vstd::prelude::*;
#[allow(unused_imports)]
use vstd::utf8::{encode_utf8, encode_utf8_decode_utf8};

verus! {

// ---------------------------------------------------------------------------
// Where plans are kept
// ---------------------------------------------------------------------------
/// The directory of the plans, in the data directory.
pub fn plans_dir(data_dir: &str) -> (r: String)
    ensures
        r@ == joined_path(data_dir@, "plans"@),
{
    join_path(data_dir, "plans")
}

/// The file of the plan with a hash.
pub fn plan_path(data_dir: &str, plan_hash: &str) -> (r: String)
    ensures
        r@ == joined_path(joined_path(data_dir@, "plans"@), plan_hash@ + ".json"@),
{
    let dir: String = plans_dir(data_dir);
    let mut name: String = plan_hash.to_owned();
    name.append(".json");
    join_path(dir.as_str(), name.as_str())
}

/// The command that applies the plan with a hash.
pub fn apply_command(plan_hash: &str) -> (r: String)
    ensures
        r@ == "diskspace apply "@ + plan_hash@,
{
    let mut out: String = "diskspace apply ".to_owned();
    out.append(plan_hash);
    out
}

/// What a plan is asked for.
#[derive(Debug, Clone, Copy, PartialEq, Eq, Structural)]
pub struct PlanRequest {
    pub need_bytes: u64,
    pub to_recover: u64,
    pub mode: Mode,
}

/// Reads the size and the mode of a plan. What is free already, none where it is unknown, need
/// not be recovered. Nothing where the size cannot be read.
pub fn plan_request(need: &str, mode: &str, free: Option<u64>) -> (r: Option<PlanRequest>)
    ensures
        match r {
            Some(p) => {
                &&& size_in(lowered(trimmed(need@))) == Some(p.need_bytes)
                &&& p.mode == Mode::named(mode@)
                &&& p.to_recover == ({
                    let f = match free {
                        Some(f) => f,
                        None => 0,
                    };
                    if p.need_bytes > f {
                        p.need_bytes - f
                    } else {
                        0
                    }
                })
            },
            None => size_in(lowered(trimmed(need@))) is None,
        },
{
    let need_bytes: u64 = match parse_size(need) {
        Some(b) => b,
        None => {
            return None;
        },
    };
    let f: u64 = match free {
        Some(f) => f,
        None => 0,
    };
    let to_recover: u64 = if need_bytes > f {
        need_bytes - f
    } else {
        0
    };
    Some(PlanRequest { need_bytes, to_recover, mode: Mode::from_str(mode) })
}

// ---------------------------------------------------------------------------
// The bytes of a plan
// ---------------------------------------------------------------------------
/// What a step intends: the part of it that the hash covers.
pub ghost struct Action {
    pub id: Seq<char>,
    pub path: Seq<char>,
    pub size: u64,
    pub mode: Seq<char>,
}

pub open spec fn action_of(s: PlanStepView) -> Action {
    Action { id: s.candidate_id, path: s.path, size: s.size_bytes, mode: s.mode }
}

pub open spec fn actions(steps: Seq<PlanStepView>) -> Seq<Action> {
    steps.map_values(|s: PlanStepView| action_of(s))
}

/// The lowest `k` bytes of a number, the lowest first.
pub open spec fn little_endian(n: nat, k: nat) -> Seq<u8>
    decreases k,
{
    if k == 0 {
        Seq::empty()
    } else {
        seq![(n % 256) as u8] + little_endian(n / 256, (k - 1) as nat)
    }
}

/// A text in UTF-8, with its length in front and a zero behind.
pub open spec fn field(s: Seq<char>) -> Seq<u8> {
    little_endian(encode_utf8(s).len(), 8) + encode_utf8(s) + seq![0u8]
}

pub open spec fn record(a: Action) -> Seq<u8> {
    field(a.id) + field(a.path) + (little_endian(a.size as nat, 8) + seq![0u8]) + field(a.mode)
}

pub open spec fn records(v: Seq<Action>) -> Seq<u8>
    decreases v.len(),
{
    if v.len() == 0 {
        Seq::empty()
    } else {
        record(v[0]) + records(v.drop_first())
    }
}

/// Actions are ordered by their ids, byte by byte.
pub open spec fn id_key(id: Seq<char>) -> Seq<Seq<int>> {
    seq![encode_utf8(id).map_values(|b: u8| b as int)]
}

pub open spec fn id_keys(v: Seq<Action>) -> Seq<Seq<Seq<int>>> {
    v.map_values(|a: Action| id_key(a.id))
}

pub open spec fn by_id(v: Seq<Action>) -> Seq<Action> {
    sorted_stably(v, id_keys(v))
}

/// The bytes that a plan is hashed from.
pub open spec fn canonical(v: Seq<Action>) -> Seq<u8> {
    records(by_id(v))
}

fn push_number(out: &mut Vec<u8>, n: u64)
    ensures
        final(out)@ == old(out)@ + little_endian(n as nat, 8),
{
    let ghost start = out@;
    let mut rest: u64 = n;
    let mut k: u32 = 8;
    assert(start + little_endian(n as nat, 8) =~= out@ + little_endian(rest as nat, k as nat));
    while k > 0
        invariant
            k <= 8,
            start + little_endian(n as nat, 8) == out@ + little_endian(rest as nat, k as nat),
        decreases k,
    {
        let ghost before = out@;
        let low: u8 = (rest % 256) as u8;
        out.push(low);
        assert(before + (seq![low] + little_endian(rest as nat / 256, (k - 1) as nat)) =~= out@
            + little_endian(rest as nat / 256, (k - 1) as nat));
        rest = rest / 256;
        k -= 1;
    }
    assert(out@ + little_endian(rest as nat, 0) =~= out@);
}

fn push_field(out: &mut Vec<u8>, s: &str)
    ensures
        final(out)@ == old(out)@ + field(s@),
{
    let ghost start = out@;
    let bytes: &[u8] = s.as_bytes();
    push_number(out, bytes.len() as u64);
    let ghost mid = out@;
    let mut i: usize = 0;
    assert(mid + bytes@.take(0) =~= mid);
    while i < bytes.len()
        invariant
            i <= bytes@.len(),
            out@ == mid + bytes@.take(i as int),
        decreases bytes.len() - i,
    {
        let ghost before = out@;
        out.push(bytes[i]);
        assert(bytes@.take(i + 1) =~= bytes@.take(i as int).push(bytes@[i as int]));
        assert(out@ =~= mid + bytes@.take(i + 1));
        i += 1;
    }
    assert(bytes@.take(i as int) =~= bytes@);
    out.push(0);
    assert(out@ =~= start + field(s@));
}

fn push_record(out: &mut Vec<u8>, step: &PlanStep)
    ensures
        final(out)@ == old(out)@ + record(action_of(step@)),
{
    let ghost start = out@;
    push_field(out, step.candidate_id.as_str());
    push_field(out, step.path.as_str());
    push_number(out, step.size_bytes);
    out.push(0);
    push_field(out, step.mode.as_str());
    assert(out@ =~= start + record(action_of(step@)));
}

fn key_of_id(id: &str) -> (r: Key)
    ensures
        r@ == id_key(id@),
{
    let bytes: &[u8] = id.as_bytes();
    let mut v: Vec<u64> = Vec::new();
    let mut i: usize = 0;
    while i < bytes.len()
        invariant
            i <= bytes@.len(),
            v@.len() == i,
            forall|j: int| 0 <= j < i ==> #[trigger] v@[j] == bytes@[j] as u64,
        decreases bytes.len() - i,
    {
        v.push(bytes[i] as u64);
        i += 1;
    }
    assert(numbers(v@) =~= id_key(id@)[0]);
    let mut parts: Vec<Vec<u64>> = Vec::new();
    parts.push(v);
    let r: Key = Key { parts };
    assert(r@ =~= id_key(id@));
    r
}

/// The bytes that a plan is hashed from: the intended actions in the order of their ids.
pub fn canonical_bytes(steps: &Vec<PlanStep>) -> (r: Vec<u8>)
    ensures
        r@ == canonical(actions(plan_step_views(steps@))),
{
    let ghost acts = actions(plan_step_views(steps@));
    let mut keys: Vec<Key> = Vec::new();
    let mut i: usize = 0;
    while i < steps.len()
        invariant
            i <= steps@.len(),
            keys@.len() == i,
            forall|j: int| 0 <= j < i ==> (#[trigger] keys@[j])@ == id_key(steps@[j].candidate_id@),
        decreases steps.len() - i,
    {
        keys.push(key_of_id(steps[i].candidate_id.as_str()));
        i += 1;
    }
    assert(key_views(keys@) =~= id_keys(acts));
    let order: Vec<usize> = order_of(&keys);
    let ghost w = by_id(acts);
    proof {
        assert(indices(order@).len() == order@.len());
        assert(w.len() == order@.len());
    }
    let mut out: Vec<u8> = Vec::new();
    let mut k: usize = 0;
    assert(w.skip(0) =~= w);
    assert(out@ + records(w.skip(0)) =~= records(w));
    while k < order.len()
        invariant
            k <= order@.len(),
            w == by_id(acts),
            acts == actions(plan_step_views(steps@)),
            w.len() == order@.len(),
            indices(order@) == stable_order(id_keys(acts)),
            forall|j: int| 0 <= j < order@.len() ==> #[trigger] order@[j] < steps@.len(),
            out@ + records(w.skip(k as int)) == records(w),
        decreases order.len() - k,
    {
        let ghost before = out@;
        let step: &PlanStep = &steps[order[k]];
        proof {
            assert(indices(order@)[k as int] == order@[k as int] as int);
            assert(w[k as int] == acts[order@[k as int] as int]);
            assert(w[k as int] == action_of(step@));
            assert(w.skip(k as int)[0] == w[k as int]);
            assert(w.skip(k as int).drop_first() =~= w.skip(k + 1));
        }
        push_record(&mut out, step);
        assert(before + (record(w[k as int]) + records(w.skip(k + 1))) =~= out@ + records(
            w.skip(k + 1),
        ));
        k += 1;
    }
    assert(records(w.skip(k as int)) =~= Seq::<u8>::empty());
    assert(out@ + records(w.skip(k as int)) =~= out@);
    out
}

// ---------------------------------------------------------------------------
// The hash
// ---------------------------------------------------------------------------
/// The SHA-256 digest of some bytes, written in hexadecimal.
pub uninterp spec fn sha256_text(bytes: Seq<u8>) -> Seq<char>;

/// Every character is a digit or one of `a` to `f`.
pub open spec fn is_lower_hex(s: Seq<char>) -> bool {
    forall|i: int|
        0 <= i < s.len() ==> '0' <= #[trigger] s[i] <= '9' || 'a' <= s[i] <= 'f'
}

/// `sha2::Sha256::digest` gives the SHA-256 digest of the bytes, 32 of them; it is written with
/// two lower-case hexadecimal digits for each. Which digits is only named.
#[verifier::external_body]
fn sha256_hex(bytes: &Vec<u8>) -> (r: String)
    ensures
        r@ == sha256_text(bytes@),
        r@.len() == 64,
        is_lower_hex(r@),
{
    format!("{:x}", <sha2::Sha256 as sha2::Digest>::digest(bytes.as_slice()))
}

/// The hash that names a plan: that of its intended actions, in whatever order they stand, in 64
/// lower-case hexadecimal digits.
pub fn compute_plan_hash(steps: &Vec<PlanStep>) -> (r: String)
    ensures
        r@ == sha256_text(canonical(actions(plan_step_views(steps@)))),
        r@.len() == 64,
        is_lower_hex(r@),
{
    let bytes: Vec<u8> = canonical_bytes(steps);
    sha256_hex(&bytes)
}

// ---------------------------------------------------------------------------
// What holds of the bytes
// ---------------------------------------------------------------------------
pub open spec fn distinct_ids(v: Seq<Action>) -> bool {
    forall|i: int, j: int|
        0 <= i < j < v.len() ==> (#[trigger] v[i]).id != (#[trigger] v[j]).id
}

proof fn lemma_id_key_injective(a: Seq<char>, b: Seq<char>)
    requires
        id_key(a) == id_key(b),
    ensures
        a == b,
{
    let (x, y) = (encode_utf8(a), encode_utf8(b));
    assert(id_key(a)[0] == id_key(b)[0]);
    assert(x.len() == id_key(a)[0].len() && y.len() == id_key(b)[0].len());
    assert forall|i: int| 0 <= i < x.len() implies x[i] == y[i] by {
        assert(id_key(a)[0][i] == x[i] as int && id_key(b)[0][i] == y[i] as int);
    }
    assert(x =~= y);
    encode_utf8_decode_utf8(a);
    encode_utf8_decode_utf8(b);
}

/// The actions stand in strictly ascending order of their ids.
spec fn ascends(v: Seq<Action>) -> bool {
    forall|i: int, j: int|
        0 <= i < j < v.len() ==> key_less(id_key((#[trigger] v[i]).id), id_key((#[trigger] v[j]).id))
}

proof fn lemma_by_id(v: Seq<Action>)
    requires
        distinct_ids(v),
    ensures
        ascends(by_id(v)),
        forall|x: Action| by_id(v).contains(x) <==> v.contains(x),
{
    let keys = id_keys(v);
    let o = stable_order(keys);
    lemma_stable_order(keys);
    let w = by_id(v);
    assert forall|i: int, j: int| 0 <= i < j < w.len() implies key_less(
        id_key((#[trigger] w[i]).id),
        id_key((#[trigger] w[j]).id),
    ) by {
        assert(before(keys, o[i], o[j]));
        assert(w[i] == v[o[i]] && w[j] == v[o[j]]);
        assert(o[i] != o[j]);
        if keys[o[i]] == keys[o[j]] {
            lemma_id_key_injective(v[o[i]].id, v[o[j]].id);
            if o[i] < o[j] {
                assert(v[o[i]].id != v[o[j]].id);
            } else {
                assert(v[o[j]].id != v[o[i]].id);
            }
        }
    }
    assert forall|x: Action| by_id(v).contains(x) <==> v.contains(x) by {
        if by_id(v).contains(x) {
            let i = choose|i: int| 0 <= i < w.len() && w[i] == x;
            assert(v[o[i]] == x);
        }
        if v.contains(x) {
            let p = choose|p: int| 0 <= p < v.len() && v[p] == x;
            assert(o.contains(p));
            let i = choose|i: int| 0 <= i < o.len() && o[i] == p;
            assert(w[i] == x);
        }
    }
}

proof fn lemma_same_ascent(x: Seq<Action>, y: Seq<Action>)
    requires
        ascends(x),
        ascends(y),
        forall|a: Action| x.contains(a) <==> y.contains(a),
    ensures
        x == y,
    decreases x.len(),
{
    if x.len() == 0 {
        if y.len() > 0 {
            assert(y.contains(y[0]));
            assert(x.contains(y[0]));
        }
        assert(x =~= y);
    } else {
        assert(x.contains(x[0]));
        assert(y.contains(x[0]));
        let j = choose|j: int| 0 <= j < y.len() && y[j] == x[0];
        assert(y.contains(y[0]));
        assert(x.contains(y[0]));
        let i = choose|i: int| 0 <= i < x.len() && x[i] == y[0];
        if i > 0 && j > 0 {
            assert(key_less(id_key(x[0].id), id_key(x[i].id)));
            assert(key_less(id_key(y[0].id), id_key(y[j].id)));
            lemma_key_less_asymmetric(id_key(x[0].id), id_key(y[0].id));
        }
        assert(x[0] == y[0]);
        let (a, b) = (x.drop_first(), y.drop_first());
        lemma_rest(x, y);
        lemma_rest(y, x);
        assert forall|e: Action| a.contains(e) <==> b.contains(e) by {}
        assert(ascends(a)) by {
            assert forall|p: int, q: int| 0 <= p < q < a.len() implies key_less(
                id_key((#[trigger] a[p]).id),
                id_key((#[trigger] a[q]).id),
            ) by {
                assert(a[p] == x[p + 1] && a[q] == x[q + 1]);
            }
        }
        assert(ascends(b)) by {
            assert forall|p: int, q: int| 0 <= p < q < b.len() implies key_less(
                id_key((#[trigger] b[p]).id),
                id_key((#[trigger] b[q]).id),
            ) by {
                assert(b[p] == y[p + 1] && b[q] == y[q + 1]);
            }
        }
        lemma_same_ascent(a, b);
        assert(x =~= seq![x[0]] + a);
        assert(y =~= seq![y[0]] + b);
    }
}

proof fn lemma_rest(x: Seq<Action>, y: Seq<Action>)
    requires
        x.len() > 0,
        y.len() > 0,
        ascends(x),
        x[0] == y[0],
        forall|a: Action| x.contains(a) ==> y.contains(a),
    ensures
        forall|e: Action| x.drop_first().contains(e) ==> y.drop_first().contains(e),
{
    assert forall|e: Action| x.drop_first().contains(e) implies y.drop_first().contains(e) by {
        let k = choose|k: int| 0 <= k < x.drop_first().len() && x.drop_first()[k] == e;
        assert(x[k + 1] == e);
        assert(x.contains(e));
        let m = choose|m: int| 0 <= m < y.len() && y[m] == e;
        if m == 0 {
            assert(key_less(id_key(x[0].id), id_key(x[k + 1].id)));
            lemma_key_less_asymmetric(id_key(e.id), id_key(e.id));
        }
        assert(y.drop_first()[m - 1] == e);
    }
}

/// The order of the steps does not matter: plans of the same actions, each under its own id,
/// have the same bytes, and so the same hash.
pub proof fn plan_hash_ignores_order(a: Seq<PlanStepView>, b: Seq<PlanStepView>)
    requires
        distinct_ids(actions(a)),
        distinct_ids(actions(b)),
        forall|x: Action| actions(a).contains(x) <==> actions(b).contains(x),
    ensures
        canonical(actions(a)) == canonical(actions(b)),
        sha256_text(canonical(actions(a))) == sha256_text(canonical(actions(b))),
{
    lemma_by_id(actions(a));
    lemma_by_id(actions(b));
    let (x, y) = (by_id(actions(a)), by_id(actions(b)));
    assert forall|e: Action| #[trigger] x.contains(e) <==> y.contains(e) by {
        assert(x.contains(e) <==> actions(a).contains(e));
        assert(y.contains(e) <==> actions(b).contains(e));
    }
    lemma_same_ascent(x, y);
}

/// Nothing but the id, path, size and mode of the steps matters.
pub proof fn plan_hash_covers_only_the_actions(a: Seq<PlanStepView>, b: Seq<PlanStepView>)
    requires
        a.len() == b.len(),
        forall|i: int|
            0 <= i < a.len() ==> (#[trigger] a[i]).candidate_id == b[i].candidate_id && a[i].path
                == b[i].path && a[i].size_bytes == b[i].size_bytes && a[i].mode == b[i].mode,
    ensures
        canonical(actions(a)) == canonical(actions(b)),
        sha256_text(canonical(actions(a))) == sha256_text(canonical(actions(b))),
{
    assert forall|i: int| 0 <= i < a.len() implies actions(a)[i] == actions(b)[i] by {
        assert(a[i].candidate_id == b[i].candidate_id);
    }
    assert(actions(a) =~= actions(b));
}

/// The bound below which `k` bytes hold a number.
spec fn capacity(k: nat) -> nat
    decreases k,
{
    if k == 0 {
        1
    } else {
        256 * capacity((k - 1) as nat)
    }
}

proof fn lemma_little_endian(n: nat, m: nat, k: nat)
    requires
        n < capacity(k),
        m < capacity(k),
        little_endian(n, k) == little_endian(m, k),
    ensures
        n == m,
    decreases k,
{
    if k > 0 {
        let (x, y) = (little_endian(n, k), little_endian(m, k));
        let (p, q) = (
            little_endian(n / 256, (k - 1) as nat),
            little_endian(m / 256, (k - 1) as nat),
        );
        assert(x[0] == (n % 256) as u8 && y[0] == (m % 256) as u8);
        assert(x.drop_first() =~= p);
        assert(y.drop_first() =~= q);
        lemma_little_endian(n / 256, m / 256, (k - 1) as nat);
    }
}

proof fn lemma_little_endian_len(n: nat, k: nat)
    ensures
        little_endian(n, k).len() == k,
    decreases k,
{
    if k > 0 {
        lemma_little_endian_len(n / 256, (k - 1) as nat);
    }
}

/// A text that a length of eight bytes can count.
pub open spec fn countable(s: Seq<char>) -> bool {
    encode_utf8(s).len() <= u64::MAX
}

pub open spec fn encodable(a: Action) -> bool {
    countable(a.id) && countable(a.path) && countable(a.mode)
}

proof fn lemma_field(s: Seq<char>, t: Seq<char>, x: Seq<u8>, y: Seq<u8>)
    requires
        countable(s),
        countable(t),
        field(s) + x == field(t) + y,
    ensures
        s == t,
        x == y,
{
    let (a, b) = (field(s) + x, field(t) + y);
    let (p, q) = (encode_utf8(s), encode_utf8(t));
    lemma_little_endian_len(p.len(), 8);
    lemma_little_endian_len(q.len(), 8);
    assert(a.take(8) =~= little_endian(p.len(), 8));
    assert(b.take(8) =~= little_endian(q.len(), 8));
    reveal_with_fuel(capacity, 9);
    assert(capacity(8) == 0x1_0000_0000_0000_0000);
    lemma_little_endian(p.len(), q.len(), 8);
    let n = p.len() as int;
    assert(a.subrange(8, 8 + n) =~= p);
    assert(b.subrange(8, 8 + n) =~= q);
    assert(a.skip(9 + n) =~= x);
    assert(b.skip(9 + n) =~= y);
    encode_utf8_decode_utf8(s);
    encode_utf8_decode_utf8(t);
}

proof fn lemma_size(n: u64, m: u64, x: Seq<u8>, y: Seq<u8>)
    requires
        (little_endian(n as nat, 8) + seq![0u8]) + x == (little_endian(m as nat, 8) + seq![0u8]) + y,
    ensures
        n == m,
        x == y,
{
    let (a, b) = (
        (little_endian(n as nat, 8) + seq![0u8]) + x,
        (little_endian(m as nat, 8) + seq![0u8]) + y,
    );
    lemma_little_endian_len(n as nat, 8);
    lemma_little_endian_len(m as nat, 8);
    assert(a.take(8) =~= little_endian(n as nat, 8));
    assert(b.take(8) =~= little_endian(m as nat, 8));
    reveal_with_fuel(capacity, 9);
    lemma_little_endian(n as nat, m as nat, 8);
    assert(a.skip(9) =~= x);
    assert(b.skip(9) =~= y);
}

proof fn lemma_regroup(a: Seq<u8>, b: Seq<u8>, c: Seq<u8>, d: Seq<u8>, e: Seq<u8>)
    ensures
        (a + b + c + d) + e == a + (b + (c + (d + e))),
{
    assert((a + b + c + d) + e =~= a + (b + (c + (d + e))));
}

proof fn lemma_record(a: Action, b: Action, x: Seq<u8>, y: Seq<u8>)
    requires
        encodable(a),
        encodable(b),
        record(a) + x == record(b) + y,
    ensures
        a == b,
        x == y,
{
    let n1 = little_endian(a.size as nat, 8) + seq![0u8];
    let n2 = little_endian(b.size as nat, 8) + seq![0u8];
    let (m1, m2) = (field(a.mode) + x, field(b.mode) + y);
    let (s1, s2) = (n1 + m1, n2 + m2);
    let (p1, p2) = (field(a.path) + s1, field(b.path) + s2);
    lemma_regroup(field(a.id), field(a.path), n1, field(a.mode), x);
    lemma_regroup(field(b.id), field(b.path), n2, field(b.mode), y);
    lemma_field(a.id, b.id, p1, p2);
    lemma_field(a.path, b.path, s1, s2);
    lemma_size(a.size, b.size, m1, m2);
    lemma_field(a.mode, b.mode, x, y);
}

proof fn lemma_records(x: Seq<Action>, y: Seq<Action>)
    requires
        forall|i: int| 0 <= i < x.len() ==> encodable(#[trigger] x[i]),
        forall|i: int| 0 <= i < y.len() ==> encodable(#[trigger] y[i]),
        records(x) == records(y),
    ensures
        x == y,
    decreases x.len(),
{
    if x.len() > 0 {
        lemma_little_endian_len(encode_utf8(x[0].id).len(), 8);
        assert(records(x).len() >= record(x[0]).len() > 0);
    }
    if y.len() > 0 {
        lemma_little_endian_len(encode_utf8(y[0].id).len(), 8);
        assert(records(y).len() >= record(y[0]).len() > 0);
    }
    if x.len() == 0 || y.len() == 0 {
        assert(x =~= y);
    } else {
        let (a, b) = (x.drop_first(), y.drop_first());
        assert(encodable(x[0]) && encodable(y[0]));
        lemma_record(x[0], y[0], records(a), records(b));
        assert forall|i: int| 0 <= i < a.len() implies encodable(#[trigger] a[i]) by {
            assert(a[i] == x[i + 1]);
        }
        assert forall|i: int| 0 <= i < b.len() implies encodable(#[trigger] b[i]) by {
            assert(b[i] == y[i + 1]);
        }
        lemma_records(a, b);
        assert(x =~= seq![x[0]] + a);
        assert(y =~= seq![y[0]] + b);
    }
}

/// No two plans of different actions have the same bytes, wherever one field ends and the next
/// begins.
pub proof fn plan_bytes_are_unambiguous(a: Seq<PlanStepView>, b: Seq<PlanStepView>)
    requires
        forall|i: int| 0 <= i < a.len() ==> encodable(action_of(#[trigger] a[i])),
        forall|i: int| 0 <= i < b.len() ==> encodable(action_of(#[trigger] b[i])),
        canonical(actions(a)) == canonical(actions(b)),
    ensures
        by_id(actions(a)) == by_id(actions(b)),
{
    lemma_stable_order(id_keys(actions(a)));
    lemma_stable_order(id_keys(actions(b)));
    let (x, y) = (by_id(actions(a)), by_id(actions(b)));
    assert forall|i: int| 0 <= i < x.len() implies encodable(#[trigger] x[i]) by {
        let p = stable_order(id_keys(actions(a)))[i];
        assert(x[i] == action_of(a[p]));
    }
    assert forall|i: int| 0 <= i < y.len() implies encodable(#[trigger] y[i]) by {
        let p = stable_order(id_keys(actions(b)))[i];
        assert(y[i] == action_of(b[p]));
    }
    lemma_records(x, y);
}

} // verus!
