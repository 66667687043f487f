//! Unix paths as texts, compared and ordered by their components.

use crate::order::{key_less, less, Key};
#[allow(unused_imports)]
use crate::order::numbers;
use crate::text::{chars_of, has_prefix, join, pieces_between, same, skip_chars, views};
#[allow(unused_imports)]
use crate::text::{joined, split_on};
use vstd::prelude::*;

verus! {

// ---------------------------------------------------------------------------
// Components
// ---------------------------------------------------------------------------
/// A piece between slashes that makes a component of its own.
pub open spec fn is_name(p: Seq<char>) -> bool {
    p.len() > 0 && p != seq!['.']
}

/// The components of a path: the root as `/`, a leading `.` as itself, and every piece between
/// slashes but the empty ones and the other dots.
pub open spec fn parts(s: Seq<char>) -> Seq<Seq<char>> {
    let pieces = split_on(s, '/');
    let names = pieces.filter(|p: Seq<char>| is_name(p));
    if s.len() > 0 && s[0] == '/' {
        seq![seq!['/']] + names
    } else if pieces[0] == seq!['.'] {
        seq![seq!['.']] + names
    } else {
        names
    }
}

/// `path` is `base` or lies beneath it.
pub open spec fn under(path: Seq<char>, base: Seq<char>) -> bool {
    parts(base).is_prefix_of(parts(path))
}

/// The two texts name one path.
pub open spec fn same_path(a: Seq<char>, b: Seq<char>) -> bool {
    parts(a) == parts(b)
}

/// The components of the directory that holds a path; none for the root and the empty path.
pub open spec fn parent_parts(p: Seq<Seq<char>>) -> Option<Seq<Seq<char>>> {
    if p.len() == 0 || p.last() == seq!['/'] {
        None
    } else {
        Some(p.drop_last())
    }
}

/// How many components `path` has past `base`, if it is `base` or lies beneath it.
pub open spec fn depth(path: Seq<char>, base: Seq<char>) -> Option<nat> {
    if under(path, base) {
        Some((parts(path).len() - parts(base).len()) as nat)
    } else {
        None
    }
}

/// The components of a path.
pub fn parts_of(s: &str) -> (r: Vec<String>)
    ensures
        views(r@) == parts(s@),
{
    let pieces: Vec<String> = pieces_between(s, '/');
    let chars: Vec<char> = chars_of(s);
    let ghost w = views(pieces@);
    let ghost keep = |p: Seq<char>| is_name(p);
    let mut out: Vec<String> = Vec::new();
    let ghost mut head = Seq::<Seq<char>>::empty();
    proof {
        reveal_strlit(".");
        reveal_strlit("/");
        assert("."@ =~= seq!['.']);
        assert("/"@ =~= seq!['/']);
        assert(w[0] == pieces@[0]@);
    }
    if chars.len() > 0 && chars[0] == '/' {
        out.push("/".to_owned());
        proof {
            head = seq![seq!['/']];
        }
    } else if same(pieces[0].as_str(), ".") {
        out.push(".".to_owned());
        proof {
            head = seq![seq!['.']];
        }
    }
    assert(views(out@) =~= head);
    let mut i: usize = 0;
    proof {
        reveal(Seq::filter);
        assert(w.take(0).filter(keep) =~= Seq::<Seq<char>>::empty());
        assert(head + w.take(0).filter(keep) =~= head);
    }
    while i < pieces.len()
        invariant
            i <= pieces@.len(),
            w == views(pieces@),
            "."@ == seq!['.'],
            keep == (|p: Seq<char>| is_name(p)),
            views(out@) == head + w.take(i as int).filter(keep),
        decreases pieces.len() - i,
    {
        proof {
            reveal(Seq::filter);
            assert(w.take(i + 1).drop_last() =~= w.take(i as int));
        }
        let p: &String = &pieces[i];
        assert(w[i as int] == p@);
        let ghost before = views(out@);
        if !p.as_str().is_empty() && !same(p.as_str(), ".") {
            out.push(p.as_str().to_owned());
            assert(views(out@) =~= before.push(p@));
            assert(before.push(p@) =~= head + w.take(i as int).filter(keep).push(p@));
        }
        i += 1;
    }
    assert(w.take(i as int) =~= w);
    out
}

/// Whether the components of `base` are the first components of `path`.
pub fn parts_start_with(path: &Vec<String>, base: &Vec<String>) -> (r: bool)
    ensures
        r == views(base@).is_prefix_of(views(path@)),
{
    if base.len() > path.len() {
        return false;
    }
    let ghost b = views(base@);
    let ghost p = views(path@);
    let mut i: usize = 0;
    while i < base.len()
        invariant
            i <= base@.len() <= path@.len(),
            b == views(base@),
            p == views(path@),
            forall|j: int| 0 <= j < i ==> b[j] == p[j],
        decreases base.len() - i,
    {
        assert(b[i as int] == base@[i as int]@);
        assert(p[i as int] == path@[i as int]@);
        if !same(path[i].as_str(), base[i].as_str()) {
            assert(p.subrange(0, b.len() as int)[i as int] != b[i as int]);
            return false;
        }
        i += 1;
    }
    assert(b =~= p.subrange(0, b.len() as int));
    true
}

/// Whether `path` is `base` or lies beneath it.
pub fn starts_with(path: &str, base: &str) -> (r: bool)
    ensures
        r == under(path@, base@),
{
    let p: Vec<String> = parts_of(path);
    let b: Vec<String> = parts_of(base);
    parts_start_with(&p, &b)
}

/// Whether two texts name one path.
pub fn is_same_path(a: &str, b: &str) -> (r: bool)
    ensures
        r == same_path(a@, b@),
{
    let p: Vec<String> = parts_of(a);
    let q: Vec<String> = parts_of(b);
    let r: bool = p.len() == q.len() && parts_start_with(&p, &q);
    proof {
        let x = views(p@);
        let y = views(q@);
        if r {
            assert(x.subrange(0, y.len() as int) =~= x);
        }
        if x == y {
            assert(x.len() == p@.len() && y.len() == q@.len());
            assert(x =~= x.subrange(0, y.len() as int));
        }
    }
    r
}

/// How many components `path` has past `home`; nothing where it does not lie there.
pub fn depth_from(path: &str, home: &str) -> (r: Option<usize>)
    ensures
        match r {
            Some(d) => depth(path@, home@) == Some(d as nat),
            None => depth(path@, home@) is None,
        },
{
    let p: Vec<String> = parts_of(path);
    let h: Vec<String> = parts_of(home);
    assert(views(p@).len() == p@.len() && views(h@).len() == h@.len());
    if parts_start_with(&p, &h) {
        Some(p.len() - h.len())
    } else {
        None
    }
}

/// The last component, where it is an ordinary name.
pub open spec fn file_name_spec(s: Seq<char>) -> Option<Seq<char>> {
    let p = parts(s);
    if p.len() == 0 || p.last() == seq!['/'] || p.last() == seq!['.'] || p.last() == seq![
        '.',
        '.',
    ] {
        None
    } else {
        Some(p.last())
    }
}

/// The last component of a path, where it is an ordinary name.
pub fn file_name(path: &str) -> (r: Option<String>)
    ensures
        crate::text::opt_view(r) == file_name_spec(path@),
{
    let p: Vec<String> = parts_of(path);
    proof {
        reveal_strlit("/");
        reveal_strlit(".");
        reveal_strlit("..");
        assert("/"@ =~= seq!['/']);
        assert("."@ =~= seq!['.']);
        assert(".."@ =~= seq!['.', '.']);
        assert(views(p@).len() == p@.len());
    }
    if p.len() == 0 {
        return None;
    }
    let last: &String = &p[p.len() - 1];
    assert(last@ == parts(path@).last());
    if same(last.as_str(), "/") || same(last.as_str(), ".") || same(last.as_str(), "..") {
        None
    } else {
        Some(last.as_str().to_owned())
    }
}

// ---------------------------------------------------------------------------
// Joining and the home directory
// ---------------------------------------------------------------------------
/// `rest` taken relative to `base`: an absolute `rest` stands for itself.
pub open spec fn joined_path(base: Seq<char>, rest: Seq<char>) -> Seq<char> {
    if rest.len() > 0 && rest[0] == '/' {
        rest
    } else if base.len() > 0 && base.last() != '/' {
        base + seq!['/'] + rest
    } else {
        base + rest
    }
}

/// Takes `rest` relative to `base`.
pub fn join_path(base: &str, rest: &str) -> (r: String)
    ensures
        r@ == joined_path(base@, rest@),
{
    let b: Vec<char> = chars_of(base);
    let t: Vec<char> = chars_of(rest);
    if t.len() > 0 && t[0] == '/' {
        return rest.to_owned();
    }
    let mut out: String = base.to_owned();
    if b.len() > 0 && b[b.len() - 1] != '/' {
        out.push('/');
        assert(out@ =~= base@ + seq!['/']);
    }
    out.append(rest);
    out
}

/// A leading `~` stands for the home directory.
pub open spec fn expanded(target: Seq<char>, home: Seq<char>) -> Seq<char> {
    if target.len() >= 2 && target[0] == '~' && target[1] == '/' {
        joined_path(home, target.skip(2))
    } else if target == seq!['~'] {
        home
    } else {
        target
    }
}

/// Resolves a leading `~/`, or a bare `~`, to the home directory.
pub fn expand_home(target: &str, home: &str) -> (r: String)
    ensures
        r@ == expanded(target@, home@),
{
    proof {
        reveal_strlit("~/");
        reveal_strlit("~");
        assert("~"@ =~= seq!['~']);
        assert("~/"@ =~= seq!['~', '/']);
    }
    if has_prefix(target, "~/") {
        assert(target@.subrange(0, 2)[0] == '~' && target@.subrange(0, 2)[1] == '/');
        let rest: String = skip_chars(target, 2);
        join_path(home, rest.as_str())
    } else {
        proof {
            if target@.len() >= 2 && target@[0] == '~' && target@[1] == '/' {
                assert(target@.subrange(0, 2) =~= seq!['~', '/']);
            }
        }
        if same(target, "~") {
            home.to_owned()
        } else {
            target.to_owned()
        }
    }
}

/// The text of a path in components.
pub open spec fn path_text(p: Seq<Seq<char>>) -> Seq<char> {
    if p.len() > 0 && p[0] == seq!['/'] {
        seq!['/'] + joined(p.drop_first(), seq!['/'])
    } else {
        joined(p, seq!['/'])
    }
}

/// The text of the first `n` components of a path.
pub fn text_of_parts(p: &Vec<String>, n: usize) -> (r: String)
    requires
        n <= p@.len(),
    ensures
        r@ == path_text(views(p@).take(n as int)),
{
    let ghost w = views(p@).take(n as int);
    proof {
        reveal_strlit("/");
        assert("/"@ =~= seq!['/']);
        assert(n > 0 ==> w[0] == p@[0]@);
    }
    let rooted: bool = n > 0 && same(p[0].as_str(), "/");
    let from: usize = if rooted {
        1
    } else {
        0
    };
    let mut rest: Vec<String> = Vec::new();
    let mut i: usize = from;
    while i < n
        invariant
            from <= i <= n || (i == from && n == 0),
            n <= p@.len(),
            rest@.len() == i - from,
            forall|j: int| 0 <= j < rest@.len() ==> (#[trigger] rest@[j])@ == p@[from + j]@,
        decreases n - i,
    {
        rest.push(p[i].as_str().to_owned());
        i += 1;
    }
    let tail: String = join(&rest, "/");
    if rooted {
        let mut out: String = "/".to_owned();
        out.append(tail.as_str());
        assert(views(rest@) =~= w.drop_first());
        out
    } else {
        assert(views(rest@) =~= w);
        tail
    }
}

// ---------------------------------------------------------------------------
// The order of paths
// ---------------------------------------------------------------------------
/// A component as a sort key: the root, then `.`, then `..`, then the names by their characters.
pub open spec fn part_key(p: Seq<char>) -> Seq<int> {
    if p == seq!['/'] {
        seq![1int]
    } else if p == seq!['.'] {
        seq![2int]
    } else if p == seq!['.', '.'] {
        seq![3int]
    } else {
        seq![4int] + p.map_values(|c: char| c as int)
    }
}

/// The sort key of a path in components.
pub open spec fn parts_key(p: Seq<Seq<char>>) -> Seq<Seq<int>> {
    p.map_values(|c: Seq<char>| part_key(c))
}

/// The sort key of a path.
pub open spec fn path_key(s: Seq<char>) -> Seq<Seq<int>> {
    parts_key(parts(s))
}

fn code_of(c: char) -> (r: u64)
    ensures
        r == c as int,
{
    c as u32 as u64
}

fn key_of_part(p: &String) -> (r: Vec<u64>)
    ensures
        numbers(r@) == part_key(p@),
{
    proof {
        reveal_strlit("/");
        reveal_strlit(".");
        reveal_strlit("..");
        assert("/"@ =~= seq!['/']);
        assert("."@ =~= seq!['.']);
        assert(".."@ =~= seq!['.', '.']);
    }
    let mut v: Vec<u64> = Vec::new();
    if same(p.as_str(), "/") {
        v.push(1);
        assert(numbers(v@) =~= seq![1int]);
        return v;
    }
    if same(p.as_str(), ".") {
        v.push(2);
        assert(numbers(v@) =~= seq![2int]);
        return v;
    }
    if same(p.as_str(), "..") {
        v.push(3);
        assert(numbers(v@) =~= seq![3int]);
        return v;
    }
    v.push(4);
    let chars: Vec<char> = chars_of(p.as_str());
    let ghost codes = p@.map_values(|c: char| c as int);
    let mut i: usize = 0;
    assert(numbers(v@) =~= seq![4int] + codes.take(0));
    while i < chars.len()
        invariant
            i <= chars@.len(),
            chars@ == p@,
            codes == p@.map_values(|c: char| c as int),
            numbers(v@) == seq![4int] + codes.take(i as int),
        decreases chars.len() - i,
    {
        let ghost before = numbers(v@);
        v.push(code_of(chars[i]));
        assert(numbers(v@) =~= before.push(codes[i as int]));
        assert(codes.take(i + 1) =~= codes.take(i as int).push(codes[i as int]));
        assert(before.push(codes[i as int]) =~= seq![4int] + codes.take(i + 1));
        i += 1;
    }
    assert(codes.take(i as int) =~= codes);
    v
}

/// The sort key of a path in components.
pub fn key_of_parts(p: &Vec<String>) -> (r: Key)
    ensures
        r@ == parts_key(views(p@)),
{
    let mut out: Vec<Vec<u64>> = Vec::new();
    let mut i: usize = 0;
    while i < p.len()
        invariant
            i <= p@.len(),
            out@.len() == i,
            forall|j: int| 0 <= j < i ==> numbers((#[trigger] out@[j])@) == part_key(p@[j]@),
        decreases p.len() - i,
    {
        out.push(key_of_part(&p[i]));
        i += 1;
    }
    let r: Key = Key { parts: out };
    proof {
        assert(views(p@).len() == p@.len());
        assert forall|j: int| 0 <= j < r@.len() implies #[trigger] r@[j] == parts_key(
            views(p@),
        )[j] by {
            assert(numbers(r.parts@[j]@) == part_key(p@[j]@));
        }
        assert(r@ =~= parts_key(views(p@)));
    }
    r
}

/// The sort key of a path.
pub fn key_of_path(s: &str) -> (r: Key)
    ensures
        r@ == path_key(s@),
{
    let p: Vec<String> = parts_of(s);
    key_of_parts(&p)
}

pub proof fn lemma_part_key_injective(a: Seq<char>, b: Seq<char>)
    requires
        part_key(a) == part_key(b),
    ensures
        a == b,
{
    let x = part_key(a);
    let y = part_key(b);
    assert(x[0] == y[0]);
    if x[0] == 4 {
        assert(x.len() == a.len() + 1 && y.len() == b.len() + 1);
        assert forall|i: int| 0 <= i < a.len() implies a[i] == b[i] by {
            assert(x[i + 1] == a[i] as int);
            assert(y[i + 1] == b[i] as int);
        }
        assert(a =~= b);
    }
}

/// Components begin with others exactly where their key begins with the others' key.
pub proof fn lemma_prefix_is_key_prefix(p: Seq<Seq<char>>, b: Seq<Seq<char>>)
    ensures
        b.is_prefix_of(p) == parts_key(b).is_prefix_of(parts_key(p)),
{
    let (pk, bk) = (parts_key(p), parts_key(b));
    assert(pk.len() == p.len() && bk.len() == b.len());
    if b.is_prefix_of(p) {
        assert(b =~= p.subrange(0, b.len() as int));
        assert forall|i: int| 0 <= i < bk.len() implies bk[i] == pk.subrange(
            0,
            bk.len() as int,
        )[i] by {
            assert(b[i] == p.subrange(0, b.len() as int)[i]);
        }
        assert(bk =~= pk.subrange(0, bk.len() as int));
    }
    if bk.is_prefix_of(pk) {
        assert forall|i: int| 0 <= i < b.len() implies b[i] == p.subrange(0, b.len() as int)[i] by {
            assert(bk[i] == pk.subrange(0, bk.len() as int)[i]);
            assert(part_key(b[i]) == part_key(p[i]));
            lemma_part_key_injective(b[i], p[i]);
        }
        assert(b =~= p.subrange(0, b.len() as int));
    }
}

/// Components with one key are the same.
pub proof fn lemma_key_names_parts(a: Seq<Seq<char>>, b: Seq<Seq<char>>)
    ensures
        (parts_key(a) == parts_key(b)) == (a == b),
{
    if parts_key(a) == parts_key(b) {
        lemma_prefix_is_key_prefix(a, b);
        assert(parts_key(a).subrange(0, parts_key(b).len() as int) =~= parts_key(a));
        assert(a.len() == parts_key(a).len() && b.len() == parts_key(b).len());
        assert(b =~= a.subrange(0, b.len() as int));
        assert(a =~= b);
    }
}

/// A path lies under another exactly where its key begins with the other's key.
pub proof fn lemma_under_is_key_prefix(path: Seq<char>, base: Seq<char>)
    ensures
        under(path, base) == path_key(base).is_prefix_of(path_key(path)),
{
    lemma_prefix_is_key_prefix(parts(path), parts(base));
}

/// Paths with one key are one path.
pub proof fn lemma_key_names_path(a: Seq<char>, b: Seq<char>)
    ensures
        (path_key(a) == path_key(b)) == same_path(a, b),
{
    lemma_key_names_parts(parts(a), parts(b));
}

proof fn lemma_inner_less_asymmetric(a: Seq<int>, b: Seq<int>)
    requires
        less(a, b),
    ensures
        !less(b, a),
    decreases a.len(),
{
    if a.len() > 0 && b.len() > 0 && a[0] == b[0] {
        lemma_inner_less_asymmetric(a.drop_first(), b.drop_first());
    }
}

/// Between a key and one that it begins, every key begins with it.
pub proof fn lemma_prefix_between(x: Seq<Seq<int>>, y: Seq<Seq<int>>, z: Seq<Seq<int>>)
    requires
        x.is_prefix_of(z),
        x == y || key_less(x, y),
        y == z || key_less(y, z),
    ensures
        x.is_prefix_of(y),
    decreases x.len(),
{
    if x.len() == 0 {
        assert(y.subrange(0, 0) =~= x);
    } else if x == y {
        assert(y.subrange(0, x.len() as int) =~= x);
    } else {
        assert(z.subrange(0, x.len() as int)[0] == z[0]);
        assert(x[0] == z[0]);
        if x[0] != y[0] {
            lemma_inner_less_asymmetric(x[0], y[0]);
            assert(false);
        }
        let (a, b, c) = (x.drop_first(), y.drop_first(), z.drop_first());
        assert(a =~= c.subrange(0, a.len() as int)) by {
            assert forall|i: int| 0 <= i < a.len() implies a[i] == c.subrange(
                0,
                a.len() as int,
            )[i] by {
                assert(x[i + 1] == z.subrange(0, x.len() as int)[i + 1]);
            }
        }
        lemma_prefix_between(a, b, c);
        assert(x =~= y.subrange(0, x.len() as int)) by {
            assert forall|i: int| 0 <= i < x.len() implies x[i] == y.subrange(
                0,
                x.len() as int,
            )[i] by {
                if i > 0 {
                    assert(a[i - 1] == b.subrange(0, a.len() as int)[i - 1]);
                }
            }
        }
    }
}

/// A key comes no later than a key that it begins.
pub proof fn lemma_prefix_not_later(x: Seq<Seq<int>>, z: Seq<Seq<int>>)
    requires
        x.is_prefix_of(z),
    ensures
        x == z || key_less(x, z),
    decreases x.len(),
{
    if x.len() == z.len() {
        assert(z.subrange(0, x.len() as int) =~= z);
    } else if x.len() > 0 {
        assert(z.subrange(0, x.len() as int)[0] == z[0]);
        let (a, c) = (x.drop_first(), z.drop_first());
        assert(a =~= c.subrange(0, a.len() as int)) by {
            assert forall|i: int| 0 <= i < a.len() implies a[i] == c.subrange(
                0,
                a.len() as int,
            )[i] by {
                assert(x[i + 1] == z.subrange(0, x.len() as int)[i + 1]);
            }
        }
        lemma_prefix_not_later(a, c);
        if a == c {
            assert(a.len() == x.len() - 1 && c.len() == z.len() - 1);
        }
    }
}

/// What lies under a path that lies under a base lies under that base.
pub proof fn lemma_under_transitive(a: Seq<char>, b: Seq<char>, c: Seq<char>)
    requires
        under(a, b),
        under(b, c),
    ensures
        under(a, c),
{
    let (x, y, z) = (parts(a), parts(b), parts(c));
    assert forall|i: int| 0 <= i < z.len() implies z[i] == x.subrange(0, z.len() as int)[i] by {
        assert(z[i] == y.subrange(0, z.len() as int)[i]);
        assert(y[i] == x.subrange(0, y.len() as int)[i]);
    }
    assert(z =~= x.subrange(0, z.len() as int));
}

pub proof fn lemma_under_reflexive(a: Seq<char>)
    ensures
        under(a, a),
{
    assert(parts(a).subrange(0, parts(a).len() as int) =~= parts(a));
}

} // verus!
