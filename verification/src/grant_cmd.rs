//! The words of the `grant` command: categories, ceilings, sizes and lifetimes.

use crate::grant::{parse_recovery_class, GrantCategory, RecoveryClass};
#[allow(unused_imports)]
use crate::grant::class_named;
use crate::numbers::{read_bytes, read_i64};
#[allow(unused_imports)]
use crate::numbers::{below_zero, bytes_of, number_of, whole_number};
use crate::text::{chars_of, same, text_of, to_ascii_lower, to_ascii_lower_all, trim};
#[allow(unused_imports)]
use crate::text::{ascii_lower, ascii_lower_all, opt_str_view, opt_view, trimmed};
use vstd::prelude::*;

verus! {

// ---------------------------------------------------------------------------
// Categories and ceilings
// ---------------------------------------------------------------------------
/// A name without case, hyphens and underscores.
pub open spec fn plain_name(s: Seq<char>) -> Seq<char> {
    ascii_lower_all(trimmed(s)).filter(|c: char| c != '-' && c != '_')
}

pub open spec fn category_of(name: Seq<char>) -> Option<GrantCategory> {
    if name == "buildrecovery"@ {
        Some(GrantCategory::BuildRecovery)
    } else if name == "routinecleanup"@ {
        Some(GrantCategory::RoutineCleanup)
    } else if name == "agentautonomy"@ {
        Some(GrantCategory::AgentAutonomy)
    } else {
        None
    }
}

/// The name is no category, and `e` says so.
pub open spec fn bad_category(s: Seq<char>, e: Seq<char>) -> bool {
    category_of(plain_name(s)) is None && e == "unknown category '"@ + plain_name(s)
        + "' (use build-recovery | routine-cleanup | agent-autonomy)"@
}

fn without_marks(s: &str) -> (r: String)
    ensures
        r@ == s@.filter(|c: char| c != '-' && c != '_'),
{
    let chars: Vec<char> = chars_of(s);
    let ghost keep = |c: char| c != '-' && c != '_';
    let mut out: String = "".to_owned();
    let mut i: usize = 0;
    proof {
        reveal_strlit("");
        reveal(Seq::filter);
        assert(chars@.take(0) =~= Seq::<char>::empty());
        assert(out@ =~= Seq::<char>::empty());
        assert(chars@.take(0).filter(keep) =~= Seq::<char>::empty());
    }
    while i < chars.len()
        invariant
            i <= chars@.len(),
            keep == (|c: char| c != '-' && c != '_'),
            out@ == chars@.take(i as int).filter(keep),
        decreases chars.len() - i,
    {
        proof {
            reveal(Seq::filter);
            assert(chars@.take(i + 1).drop_last() =~= chars@.take(i as int));
            assert(chars@.take(i + 1).last() == chars@[i as int]);
        }
        if chars[i] != '-' && chars[i] != '_' {
            out.push(chars[i]);
        }
        i += 1;
    }
    assert(chars@.take(i as int) =~= s@);
    out
}

/// The category of a name, in any case, with or without hyphens and underscores.
pub fn parse_category(s: &str) -> (r: Result<GrantCategory, String>)
    ensures
        match r {
            Ok(c) => category_of(plain_name(s@)) == Some(c),
            Err(e) => bad_category(s@, e@),
        },
{
    let short: String = trim(s);
    let lower: String = to_ascii_lower_all(short.as_str());
    let name: String = without_marks(lower.as_str());
    if same(name.as_str(), "buildrecovery") {
        Ok(GrantCategory::BuildRecovery)
    } else if same(name.as_str(), "routinecleanup") {
        Ok(GrantCategory::RoutineCleanup)
    } else if same(name.as_str(), "agentautonomy") {
        Ok(GrantCategory::AgentAutonomy)
    } else {
        let mut e: String = "unknown category '".to_owned();
        e.append(name.as_str());
        e.append("' (use build-recovery | routine-cleanup | agent-autonomy)");
        Err(e)
    }
}

/// The ceiling of a name; a name that is not known is the widest.
pub fn parse_ceiling(s: &str) -> (r: RecoveryClass)
    ensures
        r == class_named(s@),
{
    parse_recovery_class(s)
}

// ---------------------------------------------------------------------------
// Sizes
// ---------------------------------------------------------------------------
/// What a size's last character multiplies it by, if it is a unit.
pub open spec fn byte_unit(c: char) -> Option<u64> {
    let l = ascii_lower(c);
    if l == 'k' {
        Some(1_000)
    } else if l == 'm' {
        Some(1_000_000)
    } else if l == 'g' {
        Some(1_000_000_000)
    } else if l == 't' {
        Some(1_000_000_000_000)
    } else if l == 'b' {
        Some(1)
    } else {
        None
    }
}

/// The number of a size and what it is multiplied by.
pub open spec fn size_parts(s: Seq<char>) -> (Seq<char>, u64) {
    match byte_unit(s.last()) {
        Some(unit) => (trimmed(s.drop_last()), unit),
        None => (trimmed(s), 1),
    }
}

fn byte_unit_of(c: char) -> (r: Option<u64>)
    ensures
        r == byte_unit(c),
{
    let l: char = to_ascii_lower(c);
    if l == 'k' {
        Some(1_000)
    } else if l == 'm' {
        Some(1_000_000)
    } else if l == 'g' {
        Some(1_000_000_000)
    } else if l == 't' {
        Some(1_000_000_000_000)
    } else if l == 'b' {
        Some(1)
    } else {
        None
    }
}

/// The text is a size of so many bytes.
pub open spec fn reads_as_bytes(s: Seq<char>, bytes: u64) -> bool {
    let t = trimmed(s);
    let n = number_of(size_parts(t).0);
    t.len() > 0 && n is Some && !below_zero(n->0) && bytes == bytes_of(
        n->0,
        size_parts(t).1 as nat,
    )
}

/// The text is no size, and `e` says why.
pub open spec fn bad_bytes(s: Seq<char>, e: Seq<char>) -> bool {
    let t = trimmed(s);
    let n = number_of(size_parts(t).0);
    ||| t.len() == 0 && e == "empty byte size"@
    ||| t.len() > 0 && n is None && e == "invalid byte size '"@ + t + "'"@
    ||| t.len() > 0 && n is Some && below_zero(n->0) && e == "byte size cannot be negative: "@ + t
}

/// A size in bytes: a decimal number with an optional decimal unit.
pub fn parse_bytes(s: &str) -> (r: Result<u64, String>)
    ensures
        match r {
            Ok(bytes) => reads_as_bytes(s@, bytes),
            Err(e) => bad_bytes(s@, e@),
        },
{
    let t: String = trim(s);
    let chars: Vec<char> = chars_of(t.as_str());
    let n: usize = chars.len();
    if n == 0 {
        return Err("empty byte size".to_owned());
    }
    let unit: Option<u64> = byte_unit_of(chars[n - 1]);
    let (text, factor): (String, u64) = match unit {
        Some(u) => {
            let head: String = text_of(&chars, 0, n - 1);
            assert(head@ =~= t@.drop_last());
            (trim(head.as_str()), u)
        },
        None => (trim(t.as_str()), 1),
    };
    match read_bytes(text.as_str(), factor) {
        None => {
            let mut e: String = "invalid byte size '".to_owned();
            e.append(t.as_str());
            e.append("'");
            Err(e)
        },
        Some((bytes, below)) => if below {
            let mut e: String = "byte size cannot be negative: ".to_owned();
            e.append(t.as_str());
            Err(e)
        } else {
            Ok(bytes)
        },
    }
}

// ---------------------------------------------------------------------------
// Lifetimes
// ---------------------------------------------------------------------------
/// How long a grant lives: a count of a unit of seconds.
#[derive(Debug, Clone, Copy, PartialEq, Eq, Structural)]
pub struct Lifetime {
    pub count: i64,
    pub unit_secs: i64,
}

impl Lifetime {
    /// Its seconds, where a duration can hold that many milliseconds.
    pub fn seconds(&self) -> (r: Option<i64>)
        ensures
            match r {
                Some(n) => n == self.count * self.unit_secs && -9_223_372_036_854_775 <= n
                    <= 9_223_372_036_854_775,
                None => self.count * self.unit_secs < -9_223_372_036_854_775 || self.count
                    * self.unit_secs > 9_223_372_036_854_775,
            },
    {
        let a: i128 = self.count as i128;
        let b: i128 = self.unit_secs as i128;
        assert(-0x4000_0000_0000_0000_0000_0000_0000_0000 <= a * b
            <= 0x4000_0000_0000_0000_0000_0000_0000_0000) by (nonlinear_arith)
            requires
                -0x8000_0000_0000_0000 <= a <= 0x7fff_ffff_ffff_ffff,
                -0x8000_0000_0000_0000 <= b <= 0x7fff_ffff_ffff_ffff,
        ;
        let n: i128 = a * b;
        if n < -9_223_372_036_854_775 || n > 9_223_372_036_854_775 {
            None
        } else {
            Some(n as i64)
        }
    }
}

/// The seconds of a duration's last character, if it is a unit.
pub open spec fn time_unit(c: char) -> Option<i64> {
    let l = ascii_lower(c);
    if l == 's' {
        Some(1)
    } else if l == 'm' {
        Some(60)
    } else if l == 'h' {
        Some(3_600)
    } else if l == 'd' {
        Some(86_400)
    } else if l == 'w' {
        Some(604_800)
    } else {
        None
    }
}

fn time_unit_of(c: char) -> (r: Option<i64>)
    ensures
        r == time_unit(c),
{
    let l: char = to_ascii_lower(c);
    if l == 's' {
        Some(1)
    } else if l == 'm' {
        Some(60)
    } else if l == 'h' {
        Some(3_600)
    } else if l == 'd' {
        Some(86_400)
    } else if l == 'w' {
        Some(604_800)
    } else {
        None
    }
}

pub open spec fn duration_parts(s: Seq<char>) -> (Seq<char>, i64) {
    match time_unit(s.last()) {
        Some(unit) => (trimmed(s.drop_last()), unit),
        None => (trimmed(s), 1),
    }
}

/// The text denotes a whole number that an `i64` can hold.
pub open spec fn count_of(s: Seq<char>) -> Option<int> {
    match whole_number(s) {
        Some(n) => if i64::MIN <= n <= i64::MAX {
            Some(n)
        } else {
            None
        },
        None => None,
    }
}

/// The text is a duration.
pub open spec fn reads_as_lifetime(s: Seq<char>, d: Lifetime) -> bool {
    let t = trimmed(s);
    t.len() > 0 && count_of(duration_parts(t).0) == Some(d.count as int) && d.count > 0
        && d.unit_secs == duration_parts(t).1
}

/// The text is no duration, and `e` says why.
pub open spec fn bad_lifetime(s: Seq<char>, e: Seq<char>) -> bool {
    let t = trimmed(s);
    let n = count_of(duration_parts(t).0);
    ||| t.len() == 0 && e == "empty duration"@
    ||| t.len() > 0 && n is None && e == "invalid duration '"@ + t + "'"@
    ||| t.len() > 0 && n is Some && n->0 <= 0 && e == "duration must be positive: "@ + t
}

/// A duration: a positive whole number with an optional unit.
pub fn parse_duration(s: &str) -> (r: Result<Lifetime, String>)
    ensures
        match r {
            Ok(d) => reads_as_lifetime(s@, d),
            Err(e) => bad_lifetime(s@, e@),
        },
{
    let t: String = trim(s);
    let chars: Vec<char> = chars_of(t.as_str());
    let n: usize = chars.len();
    if n == 0 {
        return Err("empty duration".to_owned());
    }
    let unit: Option<i64> = time_unit_of(chars[n - 1]);
    let (text, unit_secs): (String, i64) = match unit {
        Some(u) => {
            let head: String = text_of(&chars, 0, n - 1);
            assert(head@ =~= t@.drop_last());
            (trim(head.as_str()), u)
        },
        None => (trim(t.as_str()), 1),
    };
    match read_i64(text.as_str()) {
        None => {
            let mut e: String = "invalid duration '".to_owned();
            e.append(t.as_str());
            e.append("'");
            Err(e)
        },
        Some(count) => if count <= 0 {
            let mut e: String = "duration must be positive: ".to_owned();
            e.append(t.as_str());
            Err(e)
        } else {
            Ok(Lifetime { count, unit_secs })
        },
    }
}

// ---------------------------------------------------------------------------
// Issuing
// ---------------------------------------------------------------------------
/// What a grant is issued for; it is signed elsewhere.
#[derive(Debug)]
pub struct IssueParams {
    pub category: GrantCategory,
    pub recovery_class_ceiling: RecoveryClass,
    pub max_bytes: u64,
    pub min_confidence: u32,
    pub path_scope: Option<String>,
    pub valid_for: Lifetime,
}

/// Reads the words of a grant: the category, then the size, then the lifetime. The first that
/// cannot be read is reported.
pub fn issue_params(
    category: &str,
    max_bytes: &str,
    recovery_ceiling: &str,
    min_confidence: u32,
    path_scope: Option<&str>,
    expires_in: &str,
) -> (r: Result<IssueParams, String>)
    ensures
        match r {
            Ok(p) => {
                &&& category_of(plain_name(category@)) == Some(p.category)
                &&& p.recovery_class_ceiling == class_named(recovery_ceiling@)
                &&& reads_as_bytes(max_bytes@, p.max_bytes)
                &&& p.min_confidence == min_confidence
                &&& opt_view(p.path_scope) == opt_str_view(path_scope)
                &&& reads_as_lifetime(expires_in@, p.valid_for)
            },
            Err(e) => {
                ||| bad_category(category@, e@)
                ||| category_of(plain_name(category@)) is Some && bad_bytes(max_bytes@, e@)
                ||| category_of(plain_name(category@)) is Some && (exists|b: u64|
                    reads_as_bytes(max_bytes@, b)) && bad_lifetime(expires_in@, e@)
            },
        },
{
    let category: GrantCategory = match parse_category(category) {
        Ok(c) => c,
        Err(e) => {
            return Err(e);
        },
    };
    let max_bytes: u64 = match parse_bytes(max_bytes) {
        Ok(b) => b,
        Err(e) => {
            return Err(e);
        },
    };
    let valid_for: Lifetime = match parse_duration(expires_in) {
        Ok(d) => d,
        Err(e) => {
            return Err(e);
        },
    };
    Ok(
        IssueParams {
            category,
            recovery_class_ceiling: parse_ceiling(recovery_ceiling),
            max_bytes,
            min_confidence,
            path_scope: match path_scope {
                Some(p) => Some(p.to_owned()),
                None => None,
            },
            valid_for,
        },
    )
}

} // verus!
