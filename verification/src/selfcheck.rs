//! The self-check of the measurement layer: seven criteria, each judged from what a trial run
//! in a scratch directory showed.

use crate::paths::starts_with;
#[allow(unused_imports)]
use crate::paths::under;
use crate::text::{contains, pieces_between, to_decimal, trim};
#[allow(unused_imports)]
use crate::text::{decimal, occurs, split_on, trimmed, views};
use vstd::prelude::*;

verus! {

/// One criterion and whether it holds.
#[derive(Debug)]
pub struct Criterion {
    pub criterion: String,
    pub pass: bool,
    pub detail: String,
}

pub ghost struct CriterionView {
    pub criterion: Seq<char>,
    pub pass: bool,
    pub detail: Seq<char>,
}

impl View for Criterion {
    type V = CriterionView;

    open spec fn view(&self) -> CriterionView {
        CriterionView {
            criterion: self.criterion@,
            pass: self.pass,
            detail: self.detail@,
        }
    }
}

pub open spec fn criterion_views(v: Seq<Criterion>) -> Seq<CriterionView> {
    v.map_values(|c: Criterion| c@)
}

pub open spec fn passed(id: Seq<char>, detail: Seq<char>) -> CriterionView {
    CriterionView { criterion: id, pass: true, detail }
}

pub open spec fn failed(id: Seq<char>, detail: Seq<char>) -> CriterionView {
    CriterionView { criterion: id, pass: false, detail }
}

impl Criterion {
    pub fn pass(id: &str, detail: String) -> (r: Criterion)
        ensures
            r@ == passed(id@, detail@),
    {
        Criterion { criterion: id.to_owned(), pass: true, detail }
    }

    pub fn fail(id: &str, detail: String) -> (r: Criterion)
        ensures
            r@ == failed(id@, detail@),
    {
        Criterion { criterion: id.to_owned(), pass: false, detail }
    }
}

// ---------------------------------------------------------------------------
// Numbers in texts
// ---------------------------------------------------------------------------
/// Two digits with a zero in front of a single one.
pub open spec fn two_digits(n: nat) -> Seq<char> {
    if n < 10 {
        "0"@ + decimal(n)
    } else {
        decimal(n)
    }
}

/// A number of millionths in hundredths, rounded to the nearest, a tie to the even one.
pub open spec fn hundredths(n: u32) -> nat {
    let q = n as nat / 10_000;
    let r = n as nat % 10_000;
    if r > 5_000 || (r == 5_000 && q % 2 == 1) {
        q + 1
    } else {
        q
    }
}

/// A number of millionths with two decimals.
pub open spec fn with_two_decimals(n: u32) -> Seq<char> {
    decimal(hundredths(n) / 100) + "."@ + two_digits(hundredths(n) % 100)
}

/// A number of millionths in ten-thousandths, rounded to the nearest, a tie to the even one.
pub open spec fn ten_thousandths(n: u32) -> nat {
    let q = n as nat / 100;
    let r = n as nat % 100;
    if r > 50 || (r == 50 && q % 2 == 1) {
        q + 1
    } else {
        q
    }
}

/// A number of millionths with four decimals.
pub open spec fn with_four_decimals(n: u32) -> Seq<char> {
    let t = ten_thousandths(n);
    decimal(t / 10_000) + "."@ + two_digits(t / 100 % 100) + two_digits(t % 100)
}

fn push_two_digits(out: &mut String, n: u64)
    ensures
        final(out)@ == old(out)@ + two_digits(n as nat),
{
    let d: String = to_decimal(n);
    if n < 10 {
        out.append("0");
        out.append(d.as_str());
        assert(out@ =~= old(out)@ + ("0"@ + d@));
    } else {
        out.append(d.as_str());
    }
}

fn two_decimals(n: u32) -> (r: String)
    ensures
        r@ == with_two_decimals(n),
{
    let q: u64 = (n / 10_000) as u64;
    let rest: u32 = n % 10_000;
    let h: u64 = if rest > 5_000 || (rest == 5_000 && q % 2 == 1) {
        q + 1
    } else {
        q
    };
    let mut out: String = to_decimal(h / 100);
    out.append(".");
    push_two_digits(&mut out, h % 100);
    out
}

fn four_decimals(n: u32) -> (r: String)
    ensures
        r@ == with_four_decimals(n),
{
    let q: u64 = (n / 100) as u64;
    let rest: u32 = n % 100;
    let t: u64 = if rest > 50 || (rest == 50 && q % 2 == 1) {
        q + 1
    } else {
        q
    };
    let mut out: String = to_decimal(t / 10_000);
    out.append(".");
    push_two_digits(&mut out, t / 100 % 100);
    push_two_digits(&mut out, t % 100);
    out
}

// ---------------------------------------------------------------------------
// G1: where a sample comes from decides how far it is trusted
// ---------------------------------------------------------------------------
/// The confidence of a path that was measured in one way only, for each way, and the weight that
/// is documented for it; in millionths.
#[derive(Debug, Clone, Copy, PartialEq, Eq, Structural)]
pub struct Provenance {
    pub full: u32,
    pub restat: u32,
    pub incremental: u32,
    pub weight_full: u32,
    pub weight_restat: u32,
    pub weight_incremental: u32,
}

/// Each confidence is its weight, and a full walk counts for more than a re-stat, that for more
/// than an incremental reading.
pub open spec fn provenance_holds(p: Provenance) -> bool {
    &&& p.full == p.weight_full
    &&& p.restat == p.weight_restat
    &&& p.incremental == p.weight_incremental
    &&& p.full > p.restat > p.incremental
}

pub open spec fn g1_view(e: Result<Provenance, Seq<char>>) -> CriterionView {
    match e {
        Err(m) => failed("G1"@, m),
        Ok(p) => if provenance_holds(p) {
            passed(
                "G1"@,
                "confidence matches documented weighting and is monotonic (Full="@
                    + with_two_decimals(p.full) + " > Restat="@ + with_two_decimals(p.restat)
                    + " > Incremental="@ + with_two_decimals(p.incremental) + ")"@,
            )
        } else {
            failed(
                "G1"@,
                "weighting/monotonicity mismatch: Full="@ + with_four_decimals(p.full) + " (want "@
                    + with_four_decimals(p.weight_full) + "), Restat="@ + with_four_decimals(
                    p.restat,
                ) + " (want "@ + with_four_decimals(p.weight_restat) + "), Incremental="@
                    + with_four_decimals(p.incremental) + " (want "@ + with_four_decimals(
                    p.weight_incremental,
                ) + ")"@,
            )
        },
    }
}

/// A trial's result with its error as text.
pub open spec fn trial<T>(e: Result<T, String>) -> Result<T, Seq<char>> {
    match e {
        Ok(t) => Ok(t),
        Err(m) => Err(m@),
    }
}

pub fn g1_provenance_confidence(e: &Result<Provenance, String>) -> (r: Criterion)
    ensures
        r@ == g1_view(trial(*e)),
{
    let p: &Provenance = match e {
        Err(m) => {
            return Criterion::fail("G1", m.as_str().to_owned());
        },
        Ok(p) => p,
    };
    let weights: bool = p.full == p.weight_full && p.restat == p.weight_restat && p.incremental
        == p.weight_incremental;
    if weights && p.full > p.restat && p.restat > p.incremental {
        let mut d: String =
            "confidence matches documented weighting and is monotonic (Full=".to_owned();
        d.append(two_decimals(p.full).as_str());
        d.append(" > Restat=");
        d.append(two_decimals(p.restat).as_str());
        d.append(" > Incremental=");
        d.append(two_decimals(p.incremental).as_str());
        d.append(")");
        Criterion::pass("G1", d)
    } else {
        let mut d: String = "weighting/monotonicity mismatch: Full=".to_owned();
        d.append(four_decimals(p.full).as_str());
        d.append(" (want ");
        d.append(four_decimals(p.weight_full).as_str());
        d.append("), Restat=");
        d.append(four_decimals(p.restat).as_str());
        d.append(" (want ");
        d.append(four_decimals(p.weight_restat).as_str());
        d.append("), Incremental=");
        d.append(four_decimals(p.incremental).as_str());
        d.append(" (want ");
        d.append(four_decimals(p.weight_incremental).as_str());
        d.append(")");
        Criterion::fail("G1", d)
    }
}

// ---------------------------------------------------------------------------
// G2: rollups can be made again
// ---------------------------------------------------------------------------
/// The bytes of the rollup and of its high-water mark: after a first run, after a second one, and
/// the rollup once more after both were removed.
#[derive(Debug)]
pub struct Rollups {
    pub first: Vec<u8>,
    pub first_mark: Vec<u8>,
    pub second: Vec<u8>,
    pub second_mark: Vec<u8>,
    pub recomputed: Vec<u8>,
}

pub ghost struct RollupsView {
    pub first: Seq<u8>,
    pub first_mark: Seq<u8>,
    pub second: Seq<u8>,
    pub second_mark: Seq<u8>,
    pub recomputed: Seq<u8>,
}

impl View for Rollups {
    type V = RollupsView;

    open spec fn view(&self) -> RollupsView {
        RollupsView {
            first: self.first@,
            first_mark: self.first_mark@,
            second: self.second@,
            second_mark: self.second_mark@,
            recomputed: self.recomputed@,
        }
    }
}

pub open spec fn g2_view(e: Result<RollupsView, Seq<char>>) -> CriterionView {
    match e {
        Err(m) => failed("G2"@, m),
        Ok(t) => if t.first != t.second || t.first_mark != t.second_mark {
            failed("G2"@, "re-running the rollup was NOT idempotent"@)
        } else if t.first != t.recomputed {
            failed("G2"@, "rollup is NOT fully recomputable from raw series"@)
        } else {
            passed(
                "G2"@,
                "rollup_daily is idempotent and byte-identical when recomputed from raw (high-water mark respected)"@,
            )
        },
    }
}

fn same_bytes(a: &Vec<u8>, b: &Vec<u8>) -> (r: bool)
    ensures
        r == (a@ == b@),
{
    if a.len() != b.len() {
        return false;
    }
    let mut i: usize = 0;
    while i < a.len()
        invariant
            i <= a@.len(),
            a@.len() == b@.len(),
            forall|j: int| 0 <= j < i ==> a@[j] == b@[j],
        decreases a.len() - i,
    {
        if a[i] != b[i] {
            return false;
        }
        i += 1;
    }
    assert(a@ =~= b@);
    true
}

pub fn g2_rollups_recomputable(e: &Result<Rollups, String>) -> (r: Criterion)
    ensures
        r@ == g2_view(
            match *e {
                Ok(t) => Ok(t@),
                Err(m) => Err(m@),
            },
        ),
{
    match e {
        Err(m) => Criterion::fail("G2", m.as_str().to_owned()),
        Ok(t) => if !same_bytes(&t.first, &t.second) || !same_bytes(&t.first_mark, &t.second_mark) {
            Criterion::fail("G2", "re-running the rollup was NOT idempotent".to_owned())
        } else if !same_bytes(&t.first, &t.recomputed) {
            Criterion::fail("G2", "rollup is NOT fully recomputable from raw series".to_owned())
        } else {
            Criterion::pass(
                "G2",
                "rollup_daily is idempotent and byte-identical when recomputed from raw (high-water mark respected)".to_owned(),
            )
        },
    }
}

// ---------------------------------------------------------------------------
// G3: growth in place is seen, and free space never widens a scan
// ---------------------------------------------------------------------------
/// A file that grew in place, and what a tick saw of it.
#[derive(Debug, Clone, Copy, PartialEq, Eq, Structural)]
pub struct GrowthTrial {
    pub before: u64,
    pub after: u64,
    /// A re-stat of the file at its new size was emitted.
    pub restat: bool,
    /// The tick turned into a full walk.
    pub widened: bool,
}

pub open spec fn g3_view(e: Result<GrowthTrial, Seq<char>>) -> CriterionView {
    match e {
        Err(m) => failed("G3"@, m),
        Ok(t) => if t.after <= t.before {
            failed("G3"@, "file did not grow on disk — test setup invalid"@)
        } else if !t.restat {
            failed("G3"@, "Tier B did NOT emit a Restat for the grown file"@)
        } else if t.widened {
            failed("G3"@, "INVARIANT VIOLATION: df divergence widened the scan to a full walk"@)
        } else {
            passed(
                "G3"@,
                "Tier B Restat caught in-place growth ("@ + decimal(t.before as nat) + "→"@
                    + decimal(t.after as nat)
                    + " bytes); df divergence stayed ADVISORY (widened_to_full=false)"@,
            )
        },
    }
}

pub fn g3_in_place_growth(e: &Result<GrowthTrial, String>) -> (r: Criterion)
    ensures
        r@ == g3_view(trial(*e)),
{
    match e {
        Err(m) => Criterion::fail("G3", m.as_str().to_owned()),
        Ok(t) => if t.after <= t.before {
            Criterion::fail("G3", "file did not grow on disk — test setup invalid".to_owned())
        } else if !t.restat {
            Criterion::fail("G3", "Tier B did NOT emit a Restat for the grown file".to_owned())
        } else if t.widened {
            Criterion::fail(
                "G3",
                "INVARIANT VIOLATION: df divergence widened the scan to a full walk".to_owned(),
            )
        } else {
            let mut d: String = "Tier B Restat caught in-place growth (".to_owned();
            d.append(to_decimal(t.before).as_str());
            d.append("→");
            d.append(to_decimal(t.after).as_str());
            d.append(" bytes); df divergence stayed ADVISORY (widened_to_full=false)");
            Criterion::pass("G3", d)
        },
    }
}

// ---------------------------------------------------------------------------
// G4: a rename is one series, and what vanished leaves a mark
// ---------------------------------------------------------------------------
/// A sample as it was read back: the device and inode it is keyed by, if any.
#[derive(Debug, Clone, Copy)]
pub struct KeyedSample {
    pub inode: Option<(u64, u64)>,
    pub tombstone: bool,
}

/// A renamed file and a vanished one, and what was read back of them.
#[derive(Debug)]
pub struct RenameTrial {
    pub same_key: bool,
    pub read_as_reuse: bool,
    pub renamed: (u64, u64),
    pub vanished: (u64, u64),
    pub samples: Vec<KeyedSample>,
}

/// How many of the samples carry a key.
pub open spec fn keyed(v: Seq<KeyedSample>, key: (u64, u64)) -> nat
    decreases v.len(),
{
    if v.len() == 0 {
        0
    } else {
        keyed(v.drop_last(), key) + if v.last().inode == Some(key) {
            1nat
        } else {
            0
        }
    }
}

/// A sample marks the file with this key as vanished.
pub open spec fn marked_gone(v: Seq<KeyedSample>, key: (u64, u64)) -> bool {
    exists|i: int| 0 <= i < v.len() && (#[trigger] v[i]).inode == Some(key) && v[i].tombstone
}

/// The renamed file is one series of two samples, none of which marks it as vanished.
pub open spec fn one_series(v: Seq<KeyedSample>, key: (u64, u64)) -> bool {
    keyed(v, key) == 2 && !marked_gone(v, key)
}

pub ghost struct RenameView {
    pub same_key: bool,
    pub read_as_reuse: bool,
    pub renamed: (u64, u64),
    pub vanished: (u64, u64),
    pub samples: Seq<KeyedSample>,
}

impl View for RenameTrial {
    type V = RenameView;

    open spec fn view(&self) -> RenameView {
        RenameView {
            same_key: self.same_key,
            read_as_reuse: self.read_as_reuse,
            renamed: self.renamed,
            vanished: self.vanished,
            samples: self.samples@,
        }
    }
}

pub open spec fn g4_view(e: Result<RenameView, Seq<char>>) -> CriterionView {
    match e {
        Err(m) => failed("G4"@, m),
        Ok(t) => if !t.same_key {
            failed("G4"@, "rename did not preserve the (dev, ino) continuity key"@)
        } else if t.read_as_reuse {
            failed("G4"@, "rename's forward ctime bump was misread as inode reuse"@)
        } else if !one_series(t.samples, t.renamed) {
            failed("G4"@, "rename did NOT read as one continuous series"@)
        } else if !marked_gone(t.samples, t.vanished) {
            failed("G4"@, "tombstone marker did not round-trip"@)
        } else {
            passed(
                "G4"@,
                "rename stayed ONE continuous (dev, ino) series (no spurious tombstone); a separate vanished identity round-tripped as a Tombstone"@,
            )
        },
    }
}

fn has_key(s: &KeyedSample, key: (u64, u64)) -> (r: bool)
    ensures
        r == (s.inode == Some(key)),
{
    match s.inode {
        Some((dev, ino)) => dev == key.0 && ino == key.1,
        None => false,
    }
}

fn count_keyed(v: &Vec<KeyedSample>, key: (u64, u64)) -> (r: usize)
    ensures
        r == keyed(v@, key),
{
    let mut n: usize = 0;
    let mut i: usize = 0;
    assert(v@.take(0) =~= Seq::empty());
    while i < v.len()
        invariant
            i <= v@.len(),
            n <= i,
            n == keyed(v@.take(i as int), key),
        decreases v.len() - i,
    {
        assert(v@.take(i + 1).drop_last() =~= v@.take(i as int));
        assert(v@.take(i + 1).last() == v@[i as int]);
        if has_key(&v[i], key) {
            n += 1;
        }
        i += 1;
    }
    assert(v@.take(i as int) =~= v@);
    n
}

fn is_marked_gone(v: &Vec<KeyedSample>, key: (u64, u64)) -> (r: bool)
    ensures
        r == marked_gone(v@, key),
{
    let mut i: usize = 0;
    while i < v.len()
        invariant
            i <= v@.len(),
            forall|j: int| 0 <= j < i ==> !((#[trigger] v@[j]).inode == Some(key) && v@[j].tombstone),
        decreases v.len() - i,
    {
        if has_key(&v[i], key) && v[i].tombstone {
            assert(v@[i as int].inode == Some(key));
            return true;
        }
        i += 1;
    }
    false
}

pub fn g4_tombstone_rename_continuity(e: &Result<RenameTrial, String>) -> (r: Criterion)
    ensures
        r@ == g4_view(
            match *e {
                Ok(t) => Ok(t@),
                Err(m) => Err(m@),
            },
        ),
{
    let t: &RenameTrial = match e {
        Err(m) => {
            return Criterion::fail("G4", m.as_str().to_owned());
        },
        Ok(t) => t,
    };
    if !t.same_key {
        Criterion::fail("G4", "rename did not preserve the (dev, ino) continuity key".to_owned())
    } else if t.read_as_reuse {
        Criterion::fail("G4", "rename's forward ctime bump was misread as inode reuse".to_owned())
    } else if count_keyed(&t.samples, t.renamed) != 2 || is_marked_gone(&t.samples, t.renamed) {
        Criterion::fail("G4", "rename did NOT read as one continuous series".to_owned())
    } else if !is_marked_gone(&t.samples, t.vanished) {
        Criterion::fail("G4", "tombstone marker did not round-trip".to_owned())
    } else {
        Criterion::pass(
            "G4",
            "rename stayed ONE continuous (dev, ino) series (no spurious tombstone); a separate vanished identity round-tripped as a Tombstone".to_owned(),
        )
    }
}

// ---------------------------------------------------------------------------
// G5: no line is torn
// ---------------------------------------------------------------------------
/// How many lines were appended at once, what the log holds, and how many of its lines parse.
#[derive(Debug)]
pub struct AppendTrial {
    pub expected: usize,
    pub raw: String,
    pub parsed: usize,
}

/// How many of the pieces are not blank.
pub open spec fn not_blank(v: Seq<Seq<char>>) -> nat
    decreases v.len(),
{
    if v.len() == 0 {
        0
    } else {
        not_blank(v.drop_last()) + if trimmed(v.last()).len() > 0 {
            1nat
        } else {
            0
        }
    }
}

/// How many lines of a text are not blank.
pub open spec fn full_lines(s: Seq<char>) -> nat {
    not_blank(split_on(s, '\n'))
}

fn count_full_lines(s: &str) -> (r: usize)
    ensures
        r == full_lines(s@),
{
    let pieces: Vec<String> = pieces_between(s, '\n');
    let ghost w = views(pieces@);
    assert(w == split_on(s@, '\n'));
    let mut n: usize = 0;
    let mut i: usize = 0;
    assert(w.take(0) =~= Seq::empty());
    while i < pieces.len()
        invariant
            i <= pieces@.len(),
            w == views(pieces@),
            n <= i,
            n == not_blank(w.take(i as int)),
        decreases pieces.len() - i,
    {
        assert(w.take(i + 1).drop_last() =~= w.take(i as int));
        assert(w.take(i + 1).last() == pieces@[i as int]@);
        let t: String = trim(pieces[i].as_str());
        if t.as_str().unicode_len() > 0 {
            n += 1;
        }
        i += 1;
    }
    assert(w.take(i as int) =~= w);
    n
}

pub open spec fn g5_view(e: Result<(nat, Seq<char>, nat), Seq<char>>) -> CriterionView {
    match e {
        Err(m) => failed("G5"@, m),
        Ok((expected, raw, parsed)) => if full_lines(raw) == expected && parsed == expected {
            passed(
                "G5"@,
                decimal(expected)
                    + " concurrent appends all parsed — exclusive lock prevented torn/interleaved lines"@,
            )
        } else {
            failed(
                "G5"@,
                "expected "@ + decimal(expected) + " lines, got raw="@ + decimal(full_lines(raw))
                    + " parsed="@ + decimal(parsed),
            )
        },
    }
}

pub fn g5_lock_no_torn(e: &Result<AppendTrial, String>) -> (r: Criterion)
    ensures
        r@ == g5_view(
            match *e {
                Ok(t) => Ok((t.expected as nat, t.raw@, t.parsed as nat)),
                Err(m) => Err(m@),
            },
        ),
{
    let t: &AppendTrial = match e {
        Err(m) => {
            return Criterion::fail("G5", m.as_str().to_owned());
        },
        Ok(t) => t,
    };
    let raw_lines: usize = count_full_lines(t.raw.as_str());
    if raw_lines == t.expected && t.parsed == t.expected {
        let mut d: String = to_decimal(t.expected as u64);
        d.append(
            " concurrent appends all parsed — exclusive lock prevented torn/interleaved lines",
        );
        Criterion::pass("G5", d)
    } else {
        let mut d: String = "expected ".to_owned();
        d.append(to_decimal(t.expected as u64).as_str());
        d.append(" lines, got raw=");
        d.append(to_decimal(raw_lines as u64).as_str());
        d.append(" parsed=");
        d.append(to_decimal(t.parsed as u64).as_str());
        Criterion::fail("G5", d)
    }
}

// ---------------------------------------------------------------------------
// G6: everything stays in the data directory, without privileges
// ---------------------------------------------------------------------------
/// A name with a text: a file's path, or a source's content.
#[derive(Debug)]
pub struct Named {
    pub name: String,
    pub text: String,
}

pub open spec fn named_views(v: Seq<Named>) -> Seq<(Seq<char>, Seq<char>)> {
    v.map_values(|n: Named| (n.name@, n.text@))
}

/// What no source of the measurement layer may hold.
pub open spec fn escalations() -> Seq<Seq<char>> {
    seq![
        "Command::new(\"sudo\")"@,
        "\"/usr/bin/sudo\""@,
        "setuid"@,
        "seteuid"@,
        "geteuid"@,
        "CommandExt"@,
    ]
}

/// The first path that leaves the data directory.
pub open spec fn first_stray(data: Seq<char>, paths: Seq<(Seq<char>, Seq<char>)>) -> Option<
    (Seq<char>, Seq<char>),
>
    decreases paths.len(),
{
    if paths.len() == 0 {
        None
    } else if !under(paths[0].1, data) {
        Some(paths[0])
    } else {
        first_stray(data, paths.drop_first())
    }
}

/// The first of some patterns that a text holds.
pub open spec fn first_pattern(text: Seq<char>, patterns: Seq<Seq<char>>) -> Option<Seq<char>>
    decreases patterns.len(),
{
    if patterns.len() == 0 {
        None
    } else if occurs(text, patterns[0]) {
        Some(patterns[0])
    } else {
        first_pattern(text, patterns.drop_first())
    }
}

/// The first source that holds a forbidden pattern, with the pattern.
pub open spec fn first_escalation(sources: Seq<(Seq<char>, Seq<char>)>) -> Option<
    (Seq<char>, Seq<char>),
>
    decreases sources.len(),
{
    if sources.len() == 0 {
        None
    } else {
        match first_pattern(sources[0].1, escalations()) {
            Some(p) => Some((sources[0].0, p)),
            None => first_escalation(sources.drop_first()),
        }
    }
}

pub open spec fn g6_view(
    data: Seq<char>,
    paths: Seq<(Seq<char>, Seq<char>)>,
    sources: Seq<(Seq<char>, Seq<char>)>,
) -> CriterionView {
    match first_stray(data, paths) {
        Some((name, path)) => failed(
            "G6"@,
            name + " path "@ + path + " does not resolve under data_dir() "@ + data,
        ),
        None => match first_escalation(sources) {
            Some((name, pattern)) => failed(
                "G6"@,
                "PRIVILEGE/ SUDO REFERENCE in "@ + name + ": `"@ + pattern
                    + "` — the measurement layer must use no privilege-escalation APIs"@,
            ),
            None => passed(
                "G6"@,
                "all "@ + decimal(paths.len())
                    + " measurement paths resolve under data_dir() ("@ + data
                    + "); sources reference no sudo/privilege call"@,
            ),
        },
    }
}

fn forbidden_patterns() -> (r: Vec<&'static str>)
    ensures
        r@.len() == escalations().len(),
        forall|i: int| 0 <= i < r@.len() ==> (#[trigger] r@[i])@ == escalations()[i],
{
    let mut v: Vec<&'static str> = Vec::new();
    v.push("Command::new(\"sudo\")");
    v.push("\"/usr/bin/sudo\"");
    v.push("setuid");
    v.push("seteuid");
    v.push("geteuid");
    v.push("CommandExt");
    v
}

fn find_pattern(text: &str) -> (r: Option<&'static str>)
    ensures
        match r {
            Some(p) => first_pattern(text@, escalations()) == Some(p@),
            None => first_pattern(text@, escalations()) is None,
        },
{
    let patterns: Vec<&'static str> = forbidden_patterns();
    let ghost w = escalations();
    let mut i: usize = 0;
    assert(w.skip(0) =~= w);
    while i < patterns.len()
        invariant
            i <= patterns@.len(),
            w == escalations(),
            patterns@.len() == w.len(),
            forall|j: int| 0 <= j < patterns@.len() ==> (#[trigger] patterns@[j])@ == w[j],
            first_pattern(text@, w) == first_pattern(text@, w.skip(i as int)),
        decreases patterns.len() - i,
    {
        assert(w.skip(i as int)[0] == patterns@[i as int]@);
        assert(w.skip(i as int).drop_first() =~= w.skip(i + 1));
        if contains(text, patterns[i]) {
            return Some(patterns[i]);
        }
        i += 1;
    }
    None
}

fn find_stray(data: &str, paths: &Vec<Named>) -> (r: Option<usize>)
    ensures
        match r {
            Some(i) => i < paths@.len() && first_stray(data@, named_views(paths@)) == Some(
                (paths@[i as int].name@, paths@[i as int].text@),
            ),
            None => first_stray(data@, named_views(paths@)) is None,
        },
{
    let ghost w = named_views(paths@);
    let mut i: usize = 0;
    assert(w.skip(0) =~= w);
    while i < paths.len()
        invariant
            i <= paths@.len(),
            w == named_views(paths@),
            first_stray(data@, w) == first_stray(data@, w.skip(i as int)),
        decreases paths.len() - i,
    {
        assert(w.skip(i as int)[0] == (paths@[i as int].name@, paths@[i as int].text@));
        assert(w.skip(i as int).drop_first() =~= w.skip(i + 1));
        if !starts_with(paths[i].text.as_str(), data) {
            return Some(i);
        }
        i += 1;
    }
    None
}

fn find_escalation(sources: &Vec<Named>) -> (r: Option<(usize, &'static str)>)
    ensures
        match r {
            Some((i, p)) => i < sources@.len() && first_escalation(named_views(sources@)) == Some(
                (sources@[i as int].name@, p@),
            ),
            None => first_escalation(named_views(sources@)) is None,
        },
{
    let ghost w = named_views(sources@);
    let mut i: usize = 0;
    assert(w.skip(0) =~= w);
    while i < sources.len()
        invariant
            i <= sources@.len(),
            w == named_views(sources@),
            first_escalation(w) == first_escalation(w.skip(i as int)),
        decreases sources.len() - i,
    {
        assert(w.skip(i as int)[0] == (sources@[i as int].name@, sources@[i as int].text@));
        assert(w.skip(i as int).drop_first() =~= w.skip(i + 1));
        match find_pattern(sources[i].text.as_str()) {
            Some(p) => {
                return Some((i, p));
            },
            None => {},
        }
        i += 1;
    }
    None
}

pub fn g6_home_scope_no_sudo(data: &str, paths: &Vec<Named>, sources: &Vec<Named>) -> (r: Criterion)
    ensures
        r@ == g6_view(data@, named_views(paths@), named_views(sources@)),
{
    assert(named_views(paths@).len() == paths@.len());
    match find_stray(data, paths) {
        Some(i) => {
            let mut d: String = paths[i].name.as_str().to_owned();
            d.append(" path ");
            d.append(paths[i].text.as_str());
            d.append(" does not resolve under data_dir() ");
            d.append(data);
            return Criterion::fail("G6", d);
        },
        None => {},
    }
    match find_escalation(sources) {
        Some((i, p)) => {
            let mut d: String = "PRIVILEGE/ SUDO REFERENCE in ".to_owned();
            d.append(sources[i].name.as_str());
            d.append(": `");
            d.append(p);
            d.append("` — the measurement layer must use no privilege-escalation APIs");
            return Criterion::fail("G6", d);
        },
        None => {},
    }
    let mut d: String = "all ".to_owned();
    d.append(to_decimal(paths.len() as u64).as_str());
    d.append(" measurement paths resolve under data_dir() (");
    d.append(data);
    d.append("); sources reference no sudo/privilege call");
    Criterion::pass("G6", d)
}

// ---------------------------------------------------------------------------
// G7: a tick is cheap
// ---------------------------------------------------------------------------
/// The time that a tick over a small tree may take, in nanoseconds.
pub const TICK_BUDGET_NANOS: u64 = 2_000_000_000;

/// A tick over a small tree: whether it turned into a full walk, and how long it took, also as
/// people read it.
#[derive(Debug)]
pub struct CostTrial {
    pub widened: bool,
    pub elapsed_nanos: u64,
    pub elapsed: String,
}

pub open spec fn g7_view(e: Result<(bool, u64, Seq<char>), Seq<char>>) -> CriterionView {
    match e {
        Err(m) => failed("G7"@, m),
        Ok((widened, nanos, shown)) => if widened {
            failed("G7"@, "expected an incremental tick, but it widened to a full walk"@)
        } else if nanos < TICK_BUDGET_NANOS {
            passed(
                "G7"@,
                "pruned incremental tick over the seeded tree completed in "@ + shown
                    + " (< 2s budget); the ~40s full-walk true-up is noted, not run"@,
            )
        } else {
            failed("G7"@, "pruned tick took "@ + shown + ", over the 2s budget"@)
        },
    }
}

pub fn g7_cost_budget(e: &Result<CostTrial, String>) -> (r: Criterion)
    ensures
        r@ == g7_view(
            match *e {
                Ok(t) => Ok((t.widened, t.elapsed_nanos, t.elapsed@)),
                Err(m) => Err(m@),
            },
        ),
{
    let t: &CostTrial = match e {
        Err(m) => {
            return Criterion::fail("G7", m.as_str().to_owned());
        },
        Ok(t) => t,
    };
    if t.widened {
        Criterion::fail(
            "G7",
            "expected an incremental tick, but it widened to a full walk".to_owned(),
        )
    } else if t.elapsed_nanos < TICK_BUDGET_NANOS {
        let mut d: String =
            "pruned incremental tick over the seeded tree completed in ".to_owned();
        d.append(t.elapsed.as_str());
        d.append(" (< 2s budget); the ~40s full-walk true-up is noted, not run");
        Criterion::pass("G7", d)
    } else {
        let mut d: String = "pruned tick took ".to_owned();
        d.append(t.elapsed.as_str());
        d.append(", over the 2s budget");
        Criterion::fail("G7", d)
    }
}

// ---------------------------------------------------------------------------
// The whole
// ---------------------------------------------------------------------------
/// What the trials showed. Each stands for itself: one that could not be run fails alone.
#[derive(Debug)]
pub struct Trials {
    pub provenance: Result<Provenance, String>,
    pub rollups: Result<Rollups, String>,
    pub growth: Result<GrowthTrial, String>,
    pub rename: Result<RenameTrial, String>,
    pub append: Result<AppendTrial, String>,
    pub data_dir: String,
    pub paths: Vec<Named>,
    pub sources: Vec<Named>,
    pub cost: Result<CostTrial, String>,
}

/// The seven criteria in their order.
pub open spec fn seven(t: Trials) -> Seq<CriterionView> {
    seq![
        g1_view(trial(t.provenance)),
        g2_view(
            match t.rollups {
                Ok(r) => Ok(r@),
                Err(m) => Err(m@),
            },
        ),
        g3_view(trial(t.growth)),
        g4_view(
            match t.rename {
                Ok(r) => Ok(r@),
                Err(m) => Err(m@),
            },
        ),
        g5_view(
            match t.append {
                Ok(a) => Ok((a.expected as nat, a.raw@, a.parsed as nat)),
                Err(m) => Err(m@),
            },
        ),
        g6_view(t.data_dir@, named_views(t.paths@), named_views(t.sources@)),
        g7_view(
            match t.cost {
                Ok(c) => Ok((c.widened, c.elapsed_nanos, c.elapsed@)),
                Err(m) => Err(m@),
            },
        ),
    ]
}

/// Judges the trials; without a scratch directory there is a single failed criterion.
pub open spec fn judged(t: Result<Trials, String>) -> Seq<CriterionView> {
    match t {
        Ok(t) => seven(t),
        Err(m) => seq![failed("G0"@, "could not create temp scratch dir: "@ + m@)],
    }
}

pub fn run_measurement_gate(t: &Result<Trials, String>) -> (r: Vec<Criterion>)
    ensures
        criterion_views(r@) == judged(*t),
{
    let mut out: Vec<Criterion> = Vec::new();
    match t {
        Err(m) => {
            let mut d: String = "could not create temp scratch dir: ".to_owned();
            d.append(m.as_str());
            out.push(Criterion::fail("G0", d));
        },
        Ok(t) => {
            out.push(g1_provenance_confidence(&t.provenance));
            out.push(g2_rollups_recomputable(&t.rollups));
            out.push(g3_in_place_growth(&t.growth));
            out.push(g4_tombstone_rename_continuity(&t.rename));
            out.push(g5_lock_no_torn(&t.append));
            out.push(g6_home_scope_no_sudo(t.data_dir.as_str(), &t.paths, &t.sources));
            out.push(g7_cost_budget(&t.cost));
        },
    }
    assert(criterion_views(out@) =~= judged(*t));
    out
}

/// How many criteria failed.
pub open spec fn failures(v: Seq<CriterionView>) -> nat
    decreases v.len(),
{
    if v.len() == 0 {
        0
    } else {
        failures(v.drop_last()) + if v.last().pass {
            0nat
        } else {
            1
        }
    }
}

pub fn failed_count(v: &Vec<Criterion>) -> (r: usize)
    ensures
        r == failures(criterion_views(v@)),
{
    let ghost w = criterion_views(v@);
    let mut n: usize = 0;
    let mut i: usize = 0;
    assert(w.take(0) =~= Seq::empty());
    while i < v.len()
        invariant
            i <= v@.len(),
            w == criterion_views(v@),
            n <= i,
            n == failures(w.take(i as int)),
        decreases v.len() - i,
    {
        assert(w.take(i + 1).drop_last() =~= w.take(i as int));
        assert(w.take(i + 1).last() == v@[i as int]@);
        if !v[i].pass {
            n += 1;
        }
        i += 1;
    }
    assert(w.take(i as int) =~= w);
    n
}

/// What the self-check found, and the code to exit with.
#[derive(Debug)]
pub struct SelfcheckOutcome {
    pub results: Vec<Criterion>,
    pub overall: bool,
    pub exit_code: i32,
}

/// Judges the trials; the whole passes where no criterion fails, else it exits with one.
pub fn run(t: &Result<Trials, String>) -> (r: SelfcheckOutcome)
    ensures
        criterion_views(r.results@) == judged(*t),
        r.overall == (failures(judged(*t)) == 0),
        r.exit_code == if r.overall {
            0i32
        } else {
            1
        },
{
    let results: Vec<Criterion> = run_measurement_gate(t);
    let overall: bool = failed_count(&results) == 0;
    SelfcheckOutcome {
        results,
        overall,
        exit_code: if overall {
            0
        } else {
            1
        },
    }
}

proof fn lemma_failures(v: Seq<CriterionView>)
    ensures
        failures(v) == 0 <==> forall|i: int| 0 <= i < v.len() ==> (#[trigger] v[i]).pass,
        failures(v) <= v.len(),
    decreases v.len(),
{
    if v.len() > 0 {
        lemma_failures(v.drop_last());
        assert forall|i: int| 0 <= i < v.drop_last().len() implies v.drop_last()[i] == v[i] by {}
        if failures(v) == 0 {
            assert forall|i: int| 0 <= i < v.len() implies (#[trigger] v[i]).pass by {
                if i < v.len() - 1 {
                    assert(v.drop_last()[i].pass);
                }
            }
        }
        if forall|i: int| 0 <= i < v.len() ==> (#[trigger] v[i]).pass {
            assert forall|i: int| 0 <= i < v.drop_last().len() implies (#[trigger] v.drop_last()[i]).pass by {
                assert(v[i].pass);
            }
            assert(v[v.len() - 1].pass);
        }
    }
}

/// With a scratch directory each of the seven criteria stands once, in order, whatever the
/// trials showed.
pub proof fn seven_criteria_in_order(t: Trials)
    ensures
        judged(Ok(t)).len() == 7,
        judged(Ok(t))[0].criterion == "G1"@,
        judged(Ok(t))[1].criterion == "G2"@,
        judged(Ok(t))[2].criterion == "G3"@,
        judged(Ok(t))[3].criterion == "G4"@,
        judged(Ok(t))[4].criterion == "G5"@,
        judged(Ok(t))[5].criterion == "G6"@,
        judged(Ok(t))[6].criterion == "G7"@,
{
}

/// The whole passes just where every criterion does, and never without a scratch directory.
pub proof fn overall_needs_every_criterion(t: Result<Trials, String>)
    ensures
        failures(judged(t)) == 0 <==> forall|i: int|
            0 <= i < judged(t).len() ==> (#[trigger] judged(t)[i]).pass,
        t is Err ==> failures(judged(t)) == 1,
{
    lemma_failures(judged(t));
    if let Err(m) = t {
        let v = judged(t);
        assert(v.drop_last() =~= Seq::empty());
        assert(failures(v.drop_last()) == 0);
        assert(!v.last().pass);
    }
}

} // verus!
