//! Hunting over a live walk: every directory with the bytes of the files beneath it, less those
//! that rules match.

use crate::drill::{collect_landings, DirStat, DirUniverse, HuntCandidate};
#[allow(unused_imports)]
use crate::drill::{dir_views, distinct, hunt_views, landings, DirView};
use crate::explain::{first_hit, rule_hits};
#[allow(unused_imports)]
use crate::explain::{first_true, pattern_hits};
use crate::hunt::same_parts;
use crate::model::Rule;
#[allow(unused_imports)]
use crate::model::{rule_views, RuleView};
use crate::order::{order_of, Key};
#[allow(unused_imports)]
use crate::order::{
    arranged, before, indices, key_less, key_views, lemma_key_less_asymmetric, lemma_stable_order,
    sorted_stably, stable_order,
};
use crate::paths::{key_of_parts, parts_of, parts_start_with, text_of_parts};
#[allow(unused_imports)]
use crate::paths::{
    lemma_key_names_parts, lemma_prefix_between, lemma_prefix_is_key_prefix,
    lemma_prefix_not_later, parts, parts_key, path_text,
};
#[allow(unused_imports)]
use crate::text::views;
use vstd::prelude::*;

verus! {

// ---------------------------------------------------------------------------
// What rules match
// ---------------------------------------------------------------------------
/// The pattern of a rule accepts the path itself.
pub open spec fn hit_at(rules: Seq<RuleView>, path: Seq<Seq<char>>, home: Seq<char>) -> bool {
    first_true(pattern_hits(rules, path_text(path), home)) is Some
}

/// The fewest components of a path that a rule may accept: one past home, or all of a path that
/// does not lie beneath home.
pub open spec fn shortest(path: Seq<Seq<char>>, home: Seq<Seq<char>>) -> nat {
    if home.is_prefix_of(path) {
        home.len() + 1
    } else {
        path.len()
    }
}

/// A rule matches a path: it accepts the path or a directory above it, beneath home.
pub open spec fn rule_reaches(rules: Seq<RuleView>, path: Seq<Seq<char>>, home: Seq<char>) -> bool {
    exists|k: int|
        shortest(path, parts(home)) <= k <= path.len() && #[trigger] hit_at(
            rules,
            path.take(k),
            home,
        )
}

/// Whether a rule matches a file.
pub fn rule_matches(rules: &Vec<Rule>, path: &str, home: &str) -> (r: bool)
    ensures
        r == rule_reaches(rule_views(rules@), parts(path@), home@),
{
    let file: Vec<String> = parts_of(path);
    let base: Vec<String> = parts_of(home);
    let ghost p = views(file@);
    let ghost w = rule_views(rules@);
    assert(p.len() == file@.len());
    assert(parts(home@).len() == base@.len());
    let mut k: usize = if parts_start_with(&file, &base) {
        if base.len() == file.len() {
            assert(!rule_reaches(w, p, home@));
            return false;
        }
        base.len() + 1
    } else {
        file.len()
    };
    let ghost from = k as int;
    while k <= file.len()
        invariant
            from <= k <= file@.len() + 1,
            from == shortest(p, parts(home@)),
            p == views(file@),
            p == parts(path@),
            w == rule_views(rules@),
            p.len() == file@.len(),
            forall|j: int| from <= j < k ==> !#[trigger] hit_at(w, p.take(j), home@),
        decreases file.len() + 1 - k,
    {
        let text: String = text_of_parts(&file, k);
        let hits: Vec<bool> = rule_hits(rules, text.as_str(), home);
        if first_hit(&hits).is_some() {
            assert(hit_at(w, p.take(k as int), home@));
            return true;
        }
        if k == file.len() {
            return false;
        }
        k += 1;
    }
    false
}

// ---------------------------------------------------------------------------
// Sums
// ---------------------------------------------------------------------------
/// A directory with bytes of files directly in it, and those of them that a rule matches.
#[derive(Debug)]
pub struct DirOwn {
    pub parts: Vec<String>,
    pub bytes: u64,
    pub matched: u64,
}

pub ghost struct OwnView {
    pub parts: Seq<Seq<char>>,
    pub bytes: u64,
    pub matched: u64,
}

impl View for DirOwn {
    type V = OwnView;

    open spec fn view(&self) -> OwnView {
        OwnView { parts: views(self.parts@), bytes: self.bytes, matched: self.matched }
    }
}

pub open spec fn own_views(v: Seq<DirOwn>) -> Seq<OwnView> {
    v.map_values(|d: DirOwn| d@)
}

/// A file of a walk.
pub ghost struct FileView {
    pub parts: Seq<Seq<char>>,
    pub size: u64,
    /// A rule matches it.
    pub ruled: bool,
}

/// What an entry of the list adds to a directory, in all or in matched bytes.
pub open spec fn share(d: OwnView, dir: Seq<Seq<char>>, matched: bool) -> nat {
    if !dir.is_prefix_of(d.parts) {
        0
    } else if matched {
        d.matched as nat
    } else {
        d.bytes as nat
    }
}

/// The bytes at or beneath a directory, all or the matched ones.
pub open spec fn beneath(v: Seq<OwnView>, dir: Seq<Seq<char>>, matched: bool) -> nat
    decreases v.len(),
{
    if v.len() == 0 {
        0
    } else {
        beneath(v.drop_last(), dir, matched) + share(v.last(), dir, matched)
    }
}

/// What a file adds to a directory.
pub open spec fn file_share(f: FileView, dir: Seq<Seq<char>>, ruled: bool) -> nat {
    if dir.is_prefix_of(f.parts.drop_last()) && (ruled ==> f.ruled) {
        f.size as nat
    } else {
        0
    }
}

/// The bytes of the files beneath a directory, of all or of those that rules match.
pub open spec fn file_bytes(files: Seq<FileView>, dir: Seq<Seq<char>>, ruled: bool) -> nat
    decreases files.len(),
{
    if files.len() == 0 {
        0
    } else {
        file_bytes(files.drop_last(), dir, ruled) + file_share(files.last(), dir, ruled)
    }
}

/// A directory at or beneath home that holds a file, at some level.
pub open spec fn is_dir(files: Seq<FileView>, home: Seq<Seq<char>>, dir: Seq<Seq<char>>) -> bool {
    home.is_prefix_of(dir) && exists|i: int|
        0 <= i < files.len() && dir.len() < (#[trigger] files[i]).parts.len() && dir.is_prefix_of(
            files[i].parts,
        )
}

pub open spec fn has_own(v: Seq<OwnView>, dir: Seq<Seq<char>>) -> bool {
    exists|i: int| 0 <= i < v.len() && (#[trigger] v[i]).parts == dir
}

/// The files lie beneath home and have bytes.
pub open spec fn are_beneath(files: Seq<FileView>, home: Seq<Seq<char>>) -> bool {
    forall|i: int|
        0 <= i < files.len() ==> home.is_prefix_of((#[trigger] files[i]).parts)
            && files[i].parts.len() > home.len() && files[i].size > 0
}

/// The list holds the directories of the files, and their bytes.
pub open spec fn tallied(v: Seq<OwnView>, files: Seq<FileView>, home: Seq<Seq<char>>) -> bool {
    &&& are_beneath(files, home)
    &&& forall|dir: Seq<Seq<char>>, which: bool| #[trigger]
        beneath(v, dir, which) == file_bytes(files, dir, which)
    &&& forall|i: int| 0 <= i < v.len() ==> is_dir(files, home, (#[trigger] v[i]).parts)
    &&& forall|dir: Seq<Seq<char>>| #[trigger] is_dir(files, home, dir) ==> has_own(v, dir)
}

proof fn lemma_beneath_push(v: Seq<OwnView>, d: OwnView, dir: Seq<Seq<char>>, which: bool)
    ensures
        beneath(v.push(d), dir, which) == beneath(v, dir, which) + share(d, dir, which),
{
    assert(v.push(d).drop_last() =~= v);
}

proof fn lemma_is_dir_grows(
    files: Seq<FileView>,
    f: FileView,
    home: Seq<Seq<char>>,
    dir: Seq<Seq<char>>,
)
    ensures
        is_dir(files.push(f), home, dir) == (is_dir(files, home, dir) || (home.is_prefix_of(dir)
            && dir.len() < f.parts.len() && dir.is_prefix_of(f.parts))),
{
    let g = files.push(f);
    if is_dir(g, home, dir) {
        let i = choose|i: int|
            0 <= i < g.len() && dir.len() < (#[trigger] g[i]).parts.len() && dir.is_prefix_of(
                g[i].parts,
            );
        if i < files.len() {
            assert(files[i] == g[i]);
        }
    }
    if is_dir(files, home, dir) {
        let i = choose|i: int|
            0 <= i < files.len() && dir.len() < (#[trigger] files[i]).parts.len()
                && dir.is_prefix_of(files[i].parts);
        assert(g[i] == files[i]);
    }
    if home.is_prefix_of(dir) && dir.len() < f.parts.len() && dir.is_prefix_of(f.parts) {
        assert(g[files.len() as int] == f);
    }
}

/// A proper beginning of a path is one of its directory's beginnings, and the other way round.
proof fn lemma_proper_prefix(dir: Seq<Seq<char>>, path: Seq<Seq<char>>)
    requires
        path.len() > 0,
    ensures
        dir.is_prefix_of(path.drop_last()) == (dir.is_prefix_of(path) && dir.len() < path.len()),
{
    let d = path.drop_last();
    if dir.is_prefix_of(d) {
        assert(dir =~= path.subrange(0, dir.len() as int)) by {
            assert(d.subrange(0, dir.len() as int) =~= path.subrange(0, dir.len() as int));
        }
    }
    if dir.is_prefix_of(path) && dir.len() < path.len() {
        assert(d.subrange(0, dir.len() as int) =~= path.subrange(0, dir.len() as int));
    }
}

// ---------------------------------------------------------------------------
// The walk
// ---------------------------------------------------------------------------
/// The files seen beneath a home directory so far, summed up by directory.
pub struct Walk {
    pub home: String,
    pub base: Vec<String>,
    pub dirs: Vec<DirOwn>,
    pub files: Ghost<Seq<FileView>>,
}

fn first_parts(p: &Vec<String>, n: usize) -> (r: Vec<String>)
    requires
        n <= p@.len(),
    ensures
        views(r@) == views(p@).take(n as int),
{
    let mut out: Vec<String> = Vec::new();
    let mut i: usize = 0;
    while i < n
        invariant
            i <= n <= p@.len(),
            out@.len() == i,
            forall|j: int| 0 <= j < i ==> (#[trigger] out@[j])@ == p@[j]@,
        decreases n - i,
    {
        out.push(p[i].as_str().to_owned());
        i += 1;
    }
    assert(views(out@) =~= views(p@).take(n as int));
    out
}

impl Walk {
    pub open spec fn wf(&self) -> bool {
        &&& views(self.base@) == parts(self.home@)
        &&& tallied(own_views(self.dirs@), self.files@, parts(self.home@))
    }

    pub fn new(home: &str) -> (r: Walk)
        ensures
            r.wf(),
            r.home@ == home@,
            r.files@ == Seq::<FileView>::empty(),
    {
        let r: Walk = Walk {
            home: home.to_owned(),
            base: parts_of(home),
            dirs: Vec::new(),
            files: Ghost(Seq::empty()),
        };
        assert(own_views(r.dirs@) =~= Seq::<OwnView>::empty());
        r
    }

    /// The directory of the file counted last is counted up.
    fn merge(&mut self, dir: &Vec<String>, size: u64, matched: u64) -> (done: bool)
        ensures
            final(self).home == old(self).home,
            final(self).base == old(self).base,
            final(self).files == old(self).files,
            !done ==> *final(self) == *old(self),
            done ==> {
                let (v, w) = (own_views(old(self).dirs@), own_views(final(self).dirs@));
                &&& v.len() > 0
                &&& v.last().parts == views(dir@)
                &&& v.last().bytes + size <= u64::MAX
                &&& v.last().matched + matched <= u64::MAX
                &&& w == v.drop_last().push(
                    OwnView {
                        parts: v.last().parts,
                        bytes: (v.last().bytes + size) as u64,
                        matched: (v.last().matched + matched) as u64,
                    },
                )
            },
    {
        let n: usize = self.dirs.len();
        if n == 0 {
            return false;
        }
        let ghost v = own_views(self.dirs@);
        assert(v.last() == self.dirs@[n - 1]@);
        if !same_parts(&self.dirs[n - 1].parts, dir) {
            return false;
        }
        let bytes: u64 = self.dirs[n - 1].bytes;
        let held: u64 = self.dirs[n - 1].matched;
        if bytes > u64::MAX - size || held > u64::MAX - matched {
            return false;
        }
        let parts: Vec<String> = first_parts(dir, dir.len());
        assert(views(dir@).take(dir@.len() as int) =~= views(dir@));
        self.dirs.set(n - 1, DirOwn { parts, bytes: bytes + size, matched: held + matched });
        assert(own_views(self.dirs@) =~= v.drop_last().push(
            OwnView {
                parts: v.last().parts,
                bytes: (bytes + size) as u64,
                matched: (held + matched) as u64,
            },
        ));
        true
    }

    /// The directory of a file and those above it, down from home, are listed.
    fn list(&mut self, path: &Vec<String>, size: u64, matched: u64)
        requires
            old(self).base@.len() < path@.len(),
        ensures
            final(self).home == old(self).home,
            final(self).base == old(self).base,
            final(self).files == old(self).files,
            ({
                let (v, w, p) = (
                    own_views(old(self).dirs@),
                    own_views(final(self).dirs@),
                    views(path@),
                );
                let d = OwnView { parts: p.drop_last(), bytes: size, matched };
                &&& forall|dir: Seq<Seq<char>>, which: bool| #[trigger]
                    beneath(w, dir, which) == beneath(v, dir, which) + share(d, dir, which)
                &&& forall|i: int|
                    0 <= i < w.len() ==> has_own(v, (#[trigger] w[i]).parts) || exists|k: int|
                        old(self).base@.len() <= k < p.len() && w[i].parts == #[trigger] p.take(k)
                &&& forall|dir: Seq<Seq<char>>| #[trigger] has_own(v, dir) ==> has_own(w, dir)
                &&& forall|k: int|
                    old(self).base@.len() <= k < p.len() ==> has_own(w, #[trigger] p.take(k))
            }),
    {
        let ghost v = own_views(self.dirs@);
        let ghost p = views(path@);
        let ghost from = self.base@.len();
        assert(p.len() == path@.len());
        let last: usize = path.len() - 1;
        let mut k: usize = self.base.len();
        while k < last
            invariant
                from <= k <= last,
                last == path@.len() - 1,
                p == views(path@),
                p.len() == path@.len(),
                self.home == old(self).home,
                self.base == old(self).base,
                self.files == old(self).files,
                v == own_views(old(self).dirs@),
                forall|dir: Seq<Seq<char>>, which: bool| #[trigger]
                    beneath(own_views(self.dirs@), dir, which) == beneath(v, dir, which),
                forall|i: int|
                    0 <= i < self.dirs@.len() ==> has_own(
                        v,
                        (#[trigger] own_views(self.dirs@)[i]).parts,
                    ) || exists|j: int|
                        from <= j < p.len() && own_views(self.dirs@)[i].parts
                            == #[trigger] p.take(j),
                forall|dir: Seq<Seq<char>>| #[trigger] has_own(v, dir) ==> has_own(
                    own_views(self.dirs@),
                    dir,
                ),
                forall|j: int|
                    from <= j < k ==> has_own(own_views(self.dirs@), #[trigger] p.take(j)),
            decreases last - k,
        {
            let ghost w = own_views(self.dirs@);
            let d: DirOwn = DirOwn { parts: first_parts(path, k), bytes: 0, matched: 0 };
            let ghost e = d@;
            self.dirs.push(d);
            proof {
                assert(own_views(self.dirs@) =~= w.push(e));
                lemma_list_push(v, w, e, p, from as int, k as int);
            }
            k += 1;
        }
        let ghost w = own_views(self.dirs@);
        let d: DirOwn = DirOwn { parts: first_parts(path, last), bytes: size, matched };
        let ghost e = d@;
        self.dirs.push(d);
        proof {
            assert(own_views(self.dirs@) =~= w.push(e));
            assert(p.take(last as int) =~= p.drop_last());
            lemma_list_push(v, w, e, p, from as int, last as int);
        }
    }

    /// Counts a file in. One without bytes, or not beneath home, does not count.
    pub fn add_file(&mut self, path: &str, size: u64, rules: &Vec<Rule>)
        requires
            old(self).wf(),
        ensures
            final(self).wf(),
            final(self).home == old(self).home,
            ({
                let (p, h) = (parts(path@), parts(old(self).home@));
                final(self).files@ == if size > 0 && h.is_prefix_of(p) && p.len() > h.len() {
                    old(self).files@.push(
                        FileView {
                            parts: p,
                            size,
                            ruled: rule_reaches(rule_views(rules@), p, old(self).home@),
                        },
                    )
                } else {
                    old(self).files@
                }
            }),
    {
        let p: Vec<String> = parts_of(path);
        assert(views(p@).len() == p@.len());
        assert(views(self.base@).len() == self.base@.len());
        if size == 0 || p.len() <= self.base.len() || !parts_start_with(&p, &self.base) {
            return ;
        }
        let ruled: bool = rule_matches(rules, path, self.home.as_str());
        let matched: u64 = if ruled {
            size
        } else {
            0
        };
        let dir: Vec<String> = first_parts(&p, p.len() - 1);
        let ghost v = own_views(self.dirs@);
        let ghost f = FileView { parts: views(p@), size, ruled };
        let ghost h = parts(self.home@);
        let ghost was = self.files@;
        assert(views(dir@) =~= f.parts.drop_last());
        if !self.merge(&dir, size, matched) {
            self.list(&p, size, matched);
            proof {
                lemma_listed(v, own_views(self.dirs@), was, f, h, matched);
            }
        } else {
            proof {
                lemma_merged(v, own_views(self.dirs@), was, f, h, matched);
            }
        }
        self.files = Ghost(was.push(f));
    }
}

/// One more entry for the first `k` components of a path.
proof fn lemma_list_push(
    v: Seq<OwnView>,
    w: Seq<OwnView>,
    e: OwnView,
    p: Seq<Seq<char>>,
    from: int,
    k: int,
)
    requires
        0 <= from <= k < p.len(),
        e.parts == p.take(k),
        forall|i: int|
            0 <= i < w.len() ==> has_own(v, (#[trigger] w[i]).parts) || exists|j: int|
                from <= j < p.len() && w[i].parts == #[trigger] p.take(j),
        forall|dir: Seq<Seq<char>>| #[trigger] has_own(v, dir) ==> has_own(w, dir),
        forall|j: int| from <= j < k ==> has_own(w, #[trigger] p.take(j)),
    ensures
        forall|dir: Seq<Seq<char>>, which: bool| #[trigger]
            beneath(w.push(e), dir, which) == beneath(w, dir, which) + share(e, dir, which),
        forall|i: int|
            0 <= i < w.push(e).len() ==> has_own(v, (#[trigger] w.push(e)[i]).parts) || exists|j: int|
                from <= j < p.len() && w.push(e)[i].parts == #[trigger] p.take(j),
        forall|dir: Seq<Seq<char>>| #[trigger] has_own(v, dir) ==> has_own(w.push(e), dir),
        forall|j: int| from <= j <= k ==> has_own(w.push(e), #[trigger] p.take(j)),
{
    let x = w.push(e);
    assert forall|dir: Seq<Seq<char>>, which: bool| #[trigger]
        beneath(x, dir, which) == beneath(w, dir, which) + share(e, dir, which) by {
        lemma_beneath_push(w, e, dir, which);
    }
    assert forall|dir: Seq<Seq<char>>| has_own(w, dir) implies #[trigger] has_own(x, dir) by {
        let i = choose|i: int| 0 <= i < w.len() && (#[trigger] w[i]).parts == dir;
        assert(x[i] == w[i]);
    }
    assert(x[w.len() as int] == e);
    assert(has_own(x, p.take(k)));
    assert forall|i: int| 0 <= i < x.len() implies has_own(v, (#[trigger] x[i]).parts) || exists|j: int|
        from <= j < p.len() && x[i].parts == #[trigger] p.take(j) by {
        if i < w.len() {
            assert(x[i] == w[i]);
        } else {
            assert(x[i].parts == p.take(k));
        }
    }
}

proof fn lemma_files_push(files: Seq<FileView>, f: FileView, matched: u64)
    requires
        matched == if f.ruled {
            f.size
        } else {
            0
        },
    ensures
        forall|dir: Seq<Seq<char>>, which: bool| #[trigger]
            file_bytes(files.push(f), dir, which) == file_bytes(files, dir, which) + share(
                OwnView { parts: f.parts.drop_last(), bytes: f.size, matched },
                dir,
                which,
            ),
{
    assert(files.push(f).drop_last() =~= files);
}

proof fn lemma_are_beneath_push(files: Seq<FileView>, f: FileView, h: Seq<Seq<char>>)
    requires
        are_beneath(files, h),
        h.is_prefix_of(f.parts),
        f.parts.len() > h.len(),
        f.size > 0,
    ensures
        are_beneath(files.push(f), h),
{
    let g = files.push(f);
    assert forall|i: int| 0 <= i < g.len() implies h.is_prefix_of((#[trigger] g[i]).parts)
        && g[i].parts.len() > h.len() && g[i].size > 0 by {
        if i < files.len() {
            assert(g[i] == files[i]);
        }
    }
}

/// The beginnings of a path that begin with home are its directories beneath home.
proof fn lemma_take_prefix(h: Seq<Seq<char>>, p: Seq<Seq<char>>, dir: Seq<Seq<char>>)
    requires
        h.is_prefix_of(p),
    ensures
        (h.is_prefix_of(dir) && dir.is_prefix_of(p) && dir.len() < p.len()) == (exists|k: int|
            h.len() <= k < p.len() && dir == #[trigger] p.take(k)),
{
    if h.is_prefix_of(dir) && dir.is_prefix_of(p) && dir.len() < p.len() {
        assert(dir =~= p.take(dir.len() as int));
    }
    if exists|k: int| h.len() <= k < p.len() && dir == #[trigger] p.take(k) {
        let k = choose|k: int| h.len() <= k < p.len() && dir == #[trigger] p.take(k);
        assert(dir =~= p.subrange(0, dir.len() as int));
        assert(h =~= dir.subrange(0, h.len() as int)) by {
            assert(h =~= p.subrange(0, h.len() as int));
            assert forall|i: int| 0 <= i < h.len() implies h[i] == dir[i] by {
                assert(h[i] == p.subrange(0, h.len() as int)[i]);
            }
        }
    }
}

proof fn lemma_listed(
    v: Seq<OwnView>,
    w: Seq<OwnView>,
    files: Seq<FileView>,
    f: FileView,
    h: Seq<Seq<char>>,
    matched: u64,
)
    requires
        tallied(v, files, h),
        h.is_prefix_of(f.parts),
        f.parts.len() > h.len(),
        f.size > 0,
        matched == if f.ruled {
            f.size
        } else {
            0
        },
        forall|dir: Seq<Seq<char>>, which: bool| #[trigger]
            beneath(w, dir, which) == beneath(v, dir, which) + share(
                OwnView { parts: f.parts.drop_last(), bytes: f.size, matched },
                dir,
                which,
            ),
        forall|i: int|
            0 <= i < w.len() ==> has_own(v, (#[trigger] w[i]).parts) || exists|k: int|
                h.len() <= k < f.parts.len() && w[i].parts == #[trigger] f.parts.take(k),
        forall|dir: Seq<Seq<char>>| #[trigger] has_own(v, dir) ==> has_own(w, dir),
        forall|k: int| h.len() <= k < f.parts.len() ==> has_own(w, #[trigger] f.parts.take(k)),
    ensures
        tallied(w, files.push(f), h),
{
    let g = files.push(f);
    lemma_files_push(files, f, matched);
    lemma_are_beneath_push(files, f, h);
    assert forall|dir: Seq<Seq<char>>, which: bool| #[trigger]
        beneath(w, dir, which) == file_bytes(g, dir, which) by {
        assert(beneath(v, dir, which) == file_bytes(files, dir, which));
    }
    assert forall|i: int| 0 <= i < w.len() implies is_dir(g, h, (#[trigger] w[i]).parts) by {
        lemma_is_dir_grows(files, f, h, w[i].parts);
        lemma_take_prefix(h, f.parts, w[i].parts);
        if has_own(v, w[i].parts) {
            let j = choose|j: int| 0 <= j < v.len() && (#[trigger] v[j]).parts == w[i].parts;
            assert(is_dir(files, h, v[j].parts));
        }
    }
    assert forall|dir: Seq<Seq<char>>| #[trigger] is_dir(g, h, dir) implies has_own(w, dir) by {
        lemma_is_dir_grows(files, f, h, dir);
        lemma_take_prefix(h, f.parts, dir);
        if is_dir(files, h, dir) {
            assert(has_own(v, dir));
        }
    }
}

proof fn lemma_merged(
    v: Seq<OwnView>,
    w: Seq<OwnView>,
    files: Seq<FileView>,
    f: FileView,
    h: Seq<Seq<char>>,
    matched: u64,
)
    requires
        tallied(v, files, h),
        h.is_prefix_of(f.parts),
        f.parts.len() > h.len(),
        f.size > 0,
        matched == if f.ruled {
            f.size
        } else {
            0
        },
        v.len() > 0,
        v.last().parts == f.parts.drop_last(),
        v.last().bytes + f.size <= u64::MAX,
        v.last().matched + matched <= u64::MAX,
        w == v.drop_last().push(
            OwnView {
                parts: v.last().parts,
                bytes: (v.last().bytes + f.size) as u64,
                matched: (v.last().matched + matched) as u64,
            },
        ),
    ensures
        tallied(w, files.push(f), h),
{
    let g = files.push(f);
    lemma_files_push(files, f, matched);
    lemma_are_beneath_push(files, f, h);
    assert forall|dir: Seq<Seq<char>>, which: bool| #[trigger]
        beneath(w, dir, which) == file_bytes(g, dir, which) by {
        lemma_beneath_push(v.drop_last(), w.last(), dir, which);
        assert(beneath(v, dir, which) == file_bytes(files, dir, which));
    }
    assert forall|i: int| 0 <= i < w.len() implies is_dir(g, h, (#[trigger] w[i]).parts) by {
        assert(w[i].parts == v[i].parts);
        assert(is_dir(files, h, v[i].parts));
        lemma_is_dir_grows(files, f, h, w[i].parts);
    }
    assert forall|dir: Seq<Seq<char>>| #[trigger] is_dir(g, h, dir) implies has_own(w, dir) by {
        lemma_is_dir_grows(files, f, h, dir);
        if !is_dir(files, h, dir) {
            let last = v[v.len() - 1].parts;
            assert(is_dir(files, h, last));
            let i = choose|i: int|
                0 <= i < files.len() && last.len() < (#[trigger] files[i]).parts.len()
                    && last.is_prefix_of(files[i].parts);
            lemma_proper_prefix(dir, f.parts);
            assert(dir.is_prefix_of(last));
            assert(dir =~= files[i].parts.subrange(0, dir.len() as int)) by {
                assert(dir =~= last.subrange(0, dir.len() as int));
                assert(last =~= files[i].parts.subrange(0, last.len() as int));
                assert forall|j: int| 0 <= j < dir.len() implies dir[j] == files[i].parts[j] by {
                    assert(dir[j] == last.subrange(0, dir.len() as int)[j]);
                    assert(last[j] == files[i].parts.subrange(0, last.len() as int)[j]);
                }
            }
            assert(is_dir(files, h, dir));
        }
        assert(has_own(v, dir));
        let j = choose|j: int| 0 <= j < v.len() && (#[trigger] v[j]).parts == dir;
        assert(w[j].parts == v[j].parts);
    }
}

// ---------------------------------------------------------------------------
// The directories of a walk
// ---------------------------------------------------------------------------
pub open spec fn own_keys(v: Seq<OwnView>) -> Seq<Seq<Seq<int>>> {
    v.map_values(|d: OwnView| parts_key(d.parts))
}

/// The directories in the order of their paths.
pub open spec fn in_path_order(v: Seq<OwnView>) -> Seq<OwnView> {
    sorted_stably(v, own_keys(v))
}

/// What no rule matches of some bytes.
pub open spec fn left_of(total: nat, matched: nat) -> nat {
    if total >= matched {
        (total - matched) as nat
    } else {
        0
    }
}

pub open spec fn walked_dir(v: Seq<OwnView>, dir: Seq<Seq<char>>) -> DirView {
    let total = beneath(v, dir, false);
    DirView {
        path: path_text(dir),
        parts: dir,
        total,
        unruled: left_of(total, beneath(v, dir, true)),
    }
}

/// Of directories in the order of their paths, each once, from the first `k`.
pub open spec fn walked(v: Seq<OwnView>, k: nat) -> Seq<DirView>
    decreases k,
{
    if k == 0 {
        Seq::empty()
    } else {
        let i = (k - 1) as int;
        let rest = walked(v, (k - 1) as nat);
        if i > 0 && v[i].parts == v[i - 1].parts {
            rest
        } else {
            rest.push(walked_dir(v, v[i].parts))
        }
    }
}

/// A directory of some files, with the bytes beneath it and those that no rule matches.
pub open spec fn tree_dir(files: Seq<FileView>, dir: Seq<Seq<char>>) -> DirView {
    let total = file_bytes(files, dir, false);
    DirView {
        path: path_text(dir),
        parts: dir,
        total,
        unruled: left_of(total, file_bytes(files, dir, true)),
    }
}

pub open spec fn has_dir(u: Seq<DirView>, dir: Seq<Seq<char>>) -> bool {
    exists|i: int| 0 <= i < u.len() && (#[trigger] u[i]).parts == dir
}

/// The list holds the directories of some files, each once, in the order of their paths.
pub open spec fn tree_dirs(u: Seq<DirView>, files: Seq<FileView>, home: Seq<Seq<char>>) -> bool {
    &&& forall|i: int, j: int|
        0 <= i < j < u.len() ==> key_less(
            parts_key((#[trigger] u[i]).parts),
            parts_key((#[trigger] u[j]).parts),
        )
    &&& forall|i: int|
        0 <= i < u.len() ==> is_dir(files, home, (#[trigger] u[i]).parts) && u[i] == tree_dir(
            files,
            u[i].parts,
        )
    &&& forall|dir: Seq<Seq<char>>| #[trigger] is_dir(files, home, dir) ==> has_dir(u, dir)
}

pub open spec fn own_not_after(a: OwnView, b: OwnView) -> bool {
    parts_key(a.parts) == parts_key(b.parts) || key_less(parts_key(a.parts), parts_key(b.parts))
}

pub open spec fn own_ordered(v: Seq<OwnView>) -> bool {
    forall|i: int, j: int| 0 <= i < j < v.len() ==> own_not_after(#[trigger] v[i], #[trigger] v[j])
}

proof fn lemma_beneath_insert(
    v: Seq<OwnView>,
    k: int,
    d: OwnView,
    dir: Seq<Seq<char>>,
    which: bool,
)
    requires
        0 <= k <= v.len(),
    ensures
        beneath(v.insert(k, d), dir, which) == beneath(v, dir, which) + share(d, dir, which),
    decreases v.len(),
{
    let w = v.insert(k, d);
    if k == v.len() {
        assert(w =~= v.push(d));
        lemma_beneath_push(v, d, dir, which);
    } else {
        assert(w.drop_last() =~= v.drop_last().insert(k, d));
        assert(w.last() == v.last());
        lemma_beneath_insert(v.drop_last(), k, d, dir, which);
    }
}

/// The sums do not depend on the order of the list.
proof fn lemma_beneath_arranged(
    v: Seq<OwnView>,
    order: Seq<int>,
    dir: Seq<Seq<char>>,
    which: bool,
)
    requires
        order.len() == v.len(),
        forall|i: int| 0 <= i < order.len() ==> 0 <= #[trigger] order[i] < v.len(),
        order.no_duplicates(),
        forall|p: int| 0 <= p < v.len() ==> #[trigger] order.contains(p),
    ensures
        beneath(arranged(v, order), dir, which) == beneath(v, dir, which),
    decreases v.len(),
{
    if v.len() == 0 {
        assert(arranged(v, order) =~= v);
    } else {
        let n = v.len() - 1;
        assert(order.contains(n));
        let k = order.index_of(n);
        let rest = order.remove(k);
        let front = v.drop_last();
        assert forall|i: int| 0 <= i < rest.len() implies 0 <= #[trigger] rest[i] < n by {
            let j = if i < k {
                i
            } else {
                i + 1
            };
            assert(rest[i] == order[j]);
            assert(order[j] != order[k]);
        }
        assert(rest.no_duplicates()) by {
            assert forall|i: int, j: int|
                0 <= i < rest.len() && 0 <= j < rest.len() && i != j implies rest[i] != rest[j] by {
                let x = if i < k {
                    i
                } else {
                    i + 1
                };
                let y = if j < k {
                    j
                } else {
                    j + 1
                };
                assert(rest[i] == order[x] && rest[j] == order[y]);
            }
        }
        assert forall|p: int| 0 <= p < front.len() implies #[trigger] rest.contains(p) by {
            assert(order.contains(p));
            let j = order.index_of(p);
            if j < k {
                assert(rest[j] == p);
            } else {
                assert(rest[j - 1] == p);
            }
        }
        lemma_beneath_arranged(front, rest, dir, which);
        assert(arranged(v, order) =~= arranged(front, rest).insert(k, v.last())) by {
            assert forall|i: int| 0 <= i < order.len() implies arranged(v, order)[i] == arranged(
                front,
                rest,
            ).insert(k, v.last())[i] by {
                if i < k {
                    assert(rest[i] == order[i]);
                    assert(front[rest[i]] == v[order[i]]);
                } else if i > k {
                    assert(rest[i - 1] == order[i]);
                    assert(front[rest[i - 1]] == v[order[i]]);
                }
            }
        }
        lemma_beneath_insert(arranged(front, rest), k, v.last(), dir, which);
    }
}

proof fn lemma_in_path_order(v: Seq<OwnView>)
    ensures
        own_ordered(in_path_order(v)),
        in_path_order(v).len() == v.len(),
        forall|i: int| 0 <= i < v.len() ==> has_own(v, (#[trigger] in_path_order(v)[i]).parts),
        forall|dir: Seq<Seq<char>>| #[trigger] has_own(v, dir) ==> has_own(in_path_order(v), dir),
        forall|dir: Seq<Seq<char>>, which: bool| #[trigger]
            beneath(in_path_order(v), dir, which) == beneath(v, dir, which),
{
    let keys = own_keys(v);
    lemma_stable_order(keys);
    let o = stable_order(keys);
    let w = in_path_order(v);
    assert forall|i: int, j: int| 0 <= i < j < w.len() implies own_not_after(
        #[trigger] w[i],
        #[trigger] w[j],
    ) by {
        assert(before(keys, o[i], o[j]));
        assert(w[i] == v[o[i]] && w[j] == v[o[j]]);
        assert(keys[o[i]] == parts_key(v[o[i]].parts) && keys[o[j]] == parts_key(v[o[j]].parts));
    }
    assert forall|i: int| 0 <= i < v.len() implies has_own(v, (#[trigger] w[i]).parts) by {
        assert(w[i] == v[o[i]]);
    }
    assert forall|dir: Seq<Seq<char>>| #[trigger] has_own(v, dir) implies has_own(w, dir) by {
        let p = choose|p: int| 0 <= p < v.len() && (#[trigger] v[p]).parts == dir;
        assert(o.contains(p));
        let i = o.index_of(p);
        assert(w[i] == v[p]);
    }
    assert forall|dir: Seq<Seq<char>>, which: bool| #[trigger]
        beneath(w, dir, which) == beneath(v, dir, which) by {
        lemma_beneath_arranged(v, o, dir, which);
    }
}

/// What stands earlier does not lie beneath a directory, unless it is that directory.
proof fn lemma_earlier(v: Seq<OwnView>, i: int, j: int)
    requires
        own_ordered(v),
        0 <= j < i < v.len(),
        v[j].parts != v[i].parts,
    ensures
        !v[i].parts.is_prefix_of(v[j].parts),
{
    if v[i].parts.is_prefix_of(v[j].parts) {
        lemma_prefix_is_key_prefix(v[j].parts, v[i].parts);
        lemma_prefix_not_later(parts_key(v[i].parts), parts_key(v[j].parts));
        lemma_key_names_parts(v[j].parts, v[i].parts);
        assert(own_not_after(v[j], v[i]));
        lemma_key_less_asymmetric(parts_key(v[i].parts), parts_key(v[j].parts));
    }
}

/// What lies beneath a directory stands in one run: past the first that does not, none does.
proof fn lemma_later(v: Seq<OwnView>, i: int, e: int, j: int)
    requires
        own_ordered(v),
        0 <= i < e <= j < v.len(),
        !v[i].parts.is_prefix_of(v[e].parts),
    ensures
        !v[i].parts.is_prefix_of(v[j].parts),
{
    if v[i].parts.is_prefix_of(v[j].parts) && j > e {
        lemma_prefix_is_key_prefix(v[j].parts, v[i].parts);
        assert(own_not_after(v[i], v[e]) && own_not_after(v[e], v[j]));
        lemma_prefix_between(parts_key(v[i].parts), parts_key(v[e].parts), parts_key(v[j].parts));
        lemma_prefix_is_key_prefix(v[e].parts, v[i].parts);
    }
}

/// A directory that differs from the one before it stands nowhere earlier.
proof fn lemma_first_of_its_path(v: Seq<OwnView>, i: int, j: int)
    requires
        own_ordered(v),
        0 <= j < i < v.len(),
        v[i].parts != v[i - 1].parts,
    ensures
        v[j].parts != v[i].parts,
{
    if v[j].parts == v[i].parts {
        assert(own_not_after(v[j], v[i - 1]) && own_not_after(v[i - 1], v[i]));
        lemma_key_names_parts(v[i].parts, v[i - 1].parts);
        lemma_key_less_asymmetric(parts_key(v[i - 1].parts), parts_key(v[i].parts));
    }
}

/// Before the first of a path nothing counts towards it.
proof fn lemma_sum_start(v: Seq<OwnView>, i: int, k: int, which: bool)
    requires
        own_ordered(v),
        0 <= k <= i < v.len(),
        i > 0 ==> v[i].parts != v[i - 1].parts,
    ensures
        beneath(v.take(k), v[i].parts, which) == 0,
    decreases k,
{
    if k > 0 {
        lemma_sum_start(v, i, k - 1, which);
        assert(v.take(k).drop_last() =~= v.take(k - 1));
        assert(v.take(k).last() == v[k - 1]);
        lemma_first_of_its_path(v, i, k - 1);
        lemma_earlier(v, i, k - 1);
    }
}

/// Past the end of its run nothing counts towards a directory.
proof fn lemma_sum_end(v: Seq<OwnView>, i: int, e: int, k: int, which: bool)
    requires
        own_ordered(v),
        0 <= i < e <= k <= v.len(),
        e < v.len() ==> !v[i].parts.is_prefix_of(v[e].parts),
    ensures
        beneath(v.take(k), v[i].parts, which) == beneath(v.take(e), v[i].parts, which),
    decreases k,
{
    if k > e {
        lemma_sum_end(v, i, e, k - 1, which);
        assert(v.take(k).drop_last() =~= v.take(k - 1));
        assert(v.take(k).last() == v[k - 1]);
        lemma_later(v, i, e, k - 1);
    }
}

/// The bytes at or beneath the directory at position `i`, the first of its path.
fn sum_run(v: &Vec<DirOwn>, i: usize) -> (r: (u128, u128))
    requires
        i < v@.len(),
        own_ordered(own_views(v@)),
        i > 0 ==> own_views(v@)[i as int].parts != own_views(v@)[i - 1].parts,
    ensures
        r.0 == beneath(own_views(v@), own_views(v@)[i as int].parts, false),
        r.1 == beneath(own_views(v@), own_views(v@)[i as int].parts, true),
{
    let ghost w = own_views(v@);
    let ghost dir = w[i as int].parts;
    let mut bytes: u128 = 0;
    let mut matched: u128 = 0;
    let mut j: usize = i;
    proof {
        assert(w[i as int] == v@[i as int]@);
        lemma_sum_start(w, i as int, i as int, false);
        lemma_sum_start(w, i as int, i as int, true);
        assert(dir.subrange(0, dir.len() as int) =~= dir);
    }
    while j < v.len() && parts_start_with(&v[j].parts, &v[i].parts)
        invariant
            i <= j <= v@.len(),
            i < v@.len(),
            w == own_views(v@),
            dir == views(v@[i as int].parts@),
            bytes == beneath(w.take(j as int), dir, false),
            matched == beneath(w.take(j as int), dir, true),
            bytes <= j * 0xffff_ffff_ffff_ffff,
            matched <= j * 0xffff_ffff_ffff_ffff,
        decreases v.len() - j,
    {
        proof {
            assert(w.take(j + 1).drop_last() =~= w.take(j as int));
            assert(w.take(j + 1).last() == v@[j as int]@);
            assert(j * 0xffff_ffff_ffff_ffff <= 0xffff_ffff_ffff_ffff * 0xffff_ffff_ffff_ffff)
                by (nonlinear_arith)
                requires
                    j <= 0xffff_ffff_ffff_ffff,
            ;
            assert((j + 1) * 0xffff_ffff_ffff_ffff == j * 0xffff_ffff_ffff_ffff
                + 0xffff_ffff_ffff_ffff) by (nonlinear_arith);
        }
        bytes = bytes + v[j].bytes as u128;
        matched = matched + v[j].matched as u128;
        j += 1;
    }
    proof {
        assert(w.take(w.len() as int) =~= w);
        assert(w.len() == v@.len());
        if j == i {
            assert(dir.is_prefix_of(views(v@[i as int].parts@)));
        } else {
            if j < v@.len() {
                assert(w[j as int] == v@[j as int]@);
            }
            lemma_sum_end(w, i as int, j as int, w.len() as int, false);
            lemma_sum_end(w, i as int, j as int, w.len() as int, true);
        }
    }
    (bytes, matched)
}

fn sort_own(v: &Vec<DirOwn>) -> (r: Vec<DirOwn>)
    ensures
        own_views(r@) == in_path_order(own_views(v@)),
{
    let ghost w = own_views(v@);
    let mut keys: Vec<Key> = Vec::new();
    let mut i: usize = 0;
    while i < v.len()
        invariant
            i <= v@.len(),
            keys@.len() == i,
            forall|j: int| 0 <= j < i ==> (#[trigger] keys@[j])@ == parts_key(views(v@[j].parts@)),
        decreases v.len() - i,
    {
        keys.push(key_of_parts(&v[i].parts));
        i += 1;
    }
    assert(key_views(keys@) =~= own_keys(w));
    let order: Vec<usize> = order_of(&keys);
    let mut out: Vec<DirOwn> = Vec::new();
    let mut k: usize = 0;
    while k < order.len()
        invariant
            k <= order@.len(),
            forall|j: int| 0 <= j < order@.len() ==> #[trigger] order@[j] < v@.len(),
            out@.len() == k,
            forall|j: int| 0 <= j < k ==> (#[trigger] out@[j])@ == v@[order@[j] as int]@,
        decreases order.len() - k,
    {
        let d: &DirOwn = &v[order[k]];
        let parts: Vec<String> = first_parts(&d.parts, d.parts.len());
        assert(views(d.parts@).take(d.parts@.len() as int) =~= views(d.parts@));
        out.push(DirOwn { parts, bytes: d.bytes, matched: d.matched });
        k += 1;
    }
    assert(own_views(out@) =~= in_path_order(w)) by {
        assert(indices(order@) == stable_order(own_keys(w)));
        assert forall|j: int| 0 <= j < out@.len() implies (#[trigger] out@[j])@ == w[indices(
            order@,
        )[j]] by {}
        assert(indices(order@).len() == order@.len());
    }
    out
}

/// The directories of a walk with what rules leave of each.
fn walk_universe(walk: &Walk) -> (r: DirUniverse)
    requires
        walk.wf(),
    ensures
        r.wf(),
        tree_dirs(r@, walk.files@, parts(walk.home@)),
{
    let v: Vec<DirOwn> = sort_own(&walk.dirs);
    let ghost w = own_views(v@);
    proof {
        lemma_in_path_order(own_views(walk.dirs@));
        assert(w.len() == v@.len());
    }
    let mut u: Vec<DirStat> = Vec::new();
    let mut i: usize = 0;
    assert(dir_views(u@) =~= Seq::<DirView>::empty());
    while i < v.len()
        invariant
            i <= v@.len(),
            w == own_views(v@),
            own_ordered(w),
            dir_views(u@) == walked(w, i as nat),
        decreases v.len() - i,
    {
        let ghost was = dir_views(u@);
        proof {
            assert(w[i as int] == v@[i as int]@);
            if i > 0 {
                assert(w[i - 1] == v@[i - 1]@);
            }
        }
        let repeated: bool = i > 0 && same_parts(&v[i].parts, &v[i - 1].parts);
        if !repeated {
            let (bytes, matched): (u128, u128) = sum_run(&v, i);
            let unruled: u128 = if bytes >= matched {
                bytes - matched
            } else {
                0
            };
            let n: usize = v[i].parts.len();
            let path: String = text_of_parts(&v[i].parts, n);
            let parts: Vec<String> = first_parts(&v[i].parts, n);
            assert(views(v@[i as int].parts@).take(n as int) =~= views(v@[i as int].parts@));
            u.push(DirStat { path, parts, total_bytes: bytes, unruled_bytes: unruled });
            assert(dir_views(u@) =~= was.push(walked_dir(w, w[i as int].parts)));
        }
        i += 1;
    }
    proof {
        lemma_walk_is_tree(own_views(walk.dirs@), walk.files@, parts(walk.home@));
        walk_lists_each_directory_once(dir_views(u@), walk.files@, parts(walk.home@));
    }
    DirUniverse { stats: u }
}

/// Hunts over a walk: the rows over its directories, less what rules match.
pub fn hunt_fresh_walk(walk: &Walk, min_size: u64, top: usize) -> (r: Vec<HuntCandidate>)
    requires
        walk.wf(),
    ensures
        exists|u: Seq<DirView>| #[trigger]
            tree_dirs(u, walk.files@, parts(walk.home@)) && hunt_views(r@) == landings(
                u,
                parts(walk.home@),
                min_size as nat,
                top as nat,
            ),
{
    let u: DirUniverse = walk_universe(walk);
    let r: Vec<HuntCandidate> = collect_landings(&u, &walk.base, min_size as u128, top);
    assert(tree_dirs(u@, walk.files@, parts(walk.home@)));
    r
}

proof fn lemma_walked(v: Seq<OwnView>, k: nat)
    requires
        own_ordered(v),
        k <= v.len(),
    ensures
        forall|a: int, b: int|
            0 <= a < b < walked(v, k).len() ==> key_less(
                parts_key((#[trigger] walked(v, k)[a]).parts),
                parts_key((#[trigger] walked(v, k)[b]).parts),
            ),
        forall|a: int|
            0 <= a < walked(v, k).len() ==> (#[trigger] walked(v, k)[a]) == walked_dir(
                v,
                walked(v, k)[a].parts,
            ) && exists|i: int| 0 <= i < k && walked(v, k)[a].parts == (#[trigger] v[i]).parts,
        forall|i: int| 0 <= i < k ==> has_dir(walked(v, k), (#[trigger] v[i]).parts),
    decreases k,
{
    if k > 0 {
        let p = (k - 1) as nat;
        lemma_walked(v, p);
        let (s, r) = (walked(v, p), walked(v, k));
        let n = k - 1;
        assert forall|i: int| 0 <= i < k implies has_dir(r, (#[trigger] v[i]).parts) by {
            let q = if i < n {
                i
            } else {
                n - 1
            };
            if i < n || r.len() == s.len() {
                assert(has_dir(s, v[q].parts));
                let a = choose|a: int| 0 <= a < s.len() && (#[trigger] s[a]).parts == v[q].parts;
                assert(r[a] == s[a]);
            } else {
                assert(r[s.len() as int].parts == v[n].parts);
            }
        }
        assert forall|a: int| 0 <= a < r.len() implies (#[trigger] r[a]) == walked_dir(
            v,
            r[a].parts,
        ) && exists|i: int| 0 <= i < k && r[a].parts == (#[trigger] v[i]).parts by {
            if a < s.len() {
                assert(r[a] == s[a]);
                let i = choose|i: int| 0 <= i < p && s[a].parts == (#[trigger] v[i]).parts;
                assert(0 <= i < k && r[a].parts == v[i].parts);
            } else {
                assert(r[a].parts == v[n].parts);
            }
        }
        if r.len() > s.len() {
            assert forall|a: int, b: int| 0 <= a < b < r.len() implies key_less(
                parts_key((#[trigger] r[a]).parts),
                parts_key((#[trigger] r[b]).parts),
            ) by {
                assert(r[a] == s[a]);
                if b < s.len() {
                    assert(r[b] == s[b]);
                } else {
                    let i = choose|i: int| 0 <= i < p && s[a].parts == (#[trigger] v[i]).parts;
                    lemma_first_of_its_path(v, n, i);
                    assert(own_not_after(v[i], v[n]));
                    lemma_key_names_parts(v[i].parts, v[n].parts);
                }
            }
        }
    }
}

proof fn lemma_walk_is_tree(v: Seq<OwnView>, files: Seq<FileView>, home: Seq<Seq<char>>)
    requires
        tallied(v, files, home),
    ensures
        tree_dirs(walked(in_path_order(v), v.len()), files, home),
{
    lemma_in_path_order(v);
    let w = in_path_order(v);
    lemma_walked(w, v.len());
    let u = walked(w, v.len());
    assert forall|i: int| 0 <= i < u.len() implies is_dir(files, home, (#[trigger] u[i]).parts)
        && u[i] == tree_dir(files, u[i].parts) by {
        let j = choose|j: int| 0 <= j < v.len() && u[i].parts == (#[trigger] w[j]).parts;
        assert(has_own(v, w[j].parts));
        let q = choose|q: int| 0 <= q < v.len() && (#[trigger] v[q]).parts == w[j].parts;
        assert(is_dir(files, home, v[q].parts));
        let dir = u[i].parts;
        assert(beneath(w, dir, false) == beneath(v, dir, false));
        assert(beneath(w, dir, true) == beneath(v, dir, true));
        assert(beneath(v, dir, false) == file_bytes(files, dir, false));
        assert(beneath(v, dir, true) == file_bytes(files, dir, true));
    }
    assert forall|dir: Seq<Seq<char>>| #[trigger] is_dir(files, home, dir) implies has_dir(
        u,
        dir,
    ) by {
        assert(has_own(v, dir));
        assert(has_own(w, dir));
        let j = choose|j: int| 0 <= j < w.len() && (#[trigger] w[j]).parts == dir;
        assert(has_dir(u, w[j].parts));
    }
}

/// The directories of some files are listed once each.
pub proof fn walk_lists_each_directory_once(
    u: Seq<DirView>,
    files: Seq<FileView>,
    home: Seq<Seq<char>>,
)
    requires
        tree_dirs(u, files, home),
    ensures
        distinct(u),
{
    assert forall|i: int, j: int| 0 <= i < j < u.len() implies (#[trigger] u[i]).parts != (
    #[trigger] u[j]).parts by {
        let k = parts_key(u[i].parts);
        if u[i].parts == u[j].parts {
            assert(key_less(k, k));
            lemma_key_less_asymmetric(k, k);
        }
    }
}

proof fn lemma_same_dirs(
    a: Seq<DirView>,
    b: Seq<DirView>,
    files: Seq<FileView>,
    home: Seq<Seq<char>>,
    n: int,
)
    requires
        tree_dirs(a, files, home),
        tree_dirs(b, files, home),
        0 <= n <= a.len(),
    ensures
        n <= b.len(),
        forall|i: int| 0 <= i < n ==> #[trigger] a[i] == b[i],
    decreases n,
{
    if n > 0 {
        lemma_same_dirs(a, b, files, home, n - 1);
        let p = a[n - 1].parts;
        assert(is_dir(files, home, p));
        assert(has_dir(b, p));
        let j = choose|j: int| 0 <= j < b.len() && (#[trigger] b[j]).parts == p;
        if j < n - 1 {
            assert(a[j] == b[j]);
            assert(key_less(parts_key(a[j].parts), parts_key(a[n - 1].parts)));
            lemma_key_less_asymmetric(parts_key(p), parts_key(p));
        }
        let q = b[n - 1].parts;
        assert(is_dir(files, home, q));
        assert(has_dir(a, q));
        let i = choose|i: int| 0 <= i < a.len() && (#[trigger] a[i]).parts == q;
        if i < n - 1 {
            assert(a[i] == b[i]);
            assert(key_less(parts_key(b[i].parts), parts_key(b[n - 1].parts)));
            lemma_key_less_asymmetric(parts_key(q), parts_key(q));
        }
        if p != q {
            assert(j > n - 1 && i > n - 1);
            assert(key_less(parts_key(b[n - 1].parts), parts_key(b[j].parts)));
            assert(key_less(parts_key(a[n - 1].parts), parts_key(a[i].parts)));
            lemma_key_less_asymmetric(parts_key(p), parts_key(q));
        }
    }
}

/// Some files have one list of directories: a hunt over them gives one list of rows.
pub proof fn walk_has_one_list_of_directories(
    a: Seq<DirView>,
    b: Seq<DirView>,
    files: Seq<FileView>,
    home: Seq<Seq<char>>,
)
    requires
        tree_dirs(a, files, home),
        tree_dirs(b, files, home),
    ensures
        a == b,
{
    lemma_same_dirs(a, b, files, home, a.len() as int);
    lemma_same_dirs(b, a, files, home, b.len() as int);
    assert(a =~= b);
}

} // verus!
