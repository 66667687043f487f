//! Grants: what an agent may remove without a person's consent, and where that ends.

use crate::globs::glob_match;
#[allow(unused_imports)]
use crate::globs::glob_matches;
use crate::model::Consequences;
#[allow(unused_imports)]
use crate::model::ConsequencesView;
use crate::paths::expand_home;
#[allow(unused_imports)]
use crate::paths::expanded;
use crate::text::same;
#[allow(unused_imports)]
use crate::text::opt_view;
use vstd::prelude::*;

verus! {

/// What it costs to get a removed path back, from nothing to everything.
#[derive(Debug, Clone, Copy, PartialEq, Eq, Structural)]
pub enum RecoveryClass {
    Auto,
    Redownload,
    Rebuild,
    Recreate,
    Manual,
    Irreversible,
}

pub open spec fn class_named(s: Seq<char>) -> RecoveryClass {
    if s == "auto"@ {
        RecoveryClass::Auto
    } else if s == "redownload"@ {
        RecoveryClass::Redownload
    } else if s == "rebuild"@ {
        RecoveryClass::Rebuild
    } else if s == "recreate"@ {
        RecoveryClass::Recreate
    } else if s == "manual"@ {
        RecoveryClass::Manual
    } else {
        RecoveryClass::Irreversible
    }
}

/// The class of a name; a name that is not known counts as irreversible.
pub fn parse_recovery_class(s: &str) -> (r: RecoveryClass)
    ensures
        r == class_named(s@),
{
    if same(s, "auto") {
        RecoveryClass::Auto
    } else if same(s, "redownload") {
        RecoveryClass::Redownload
    } else if same(s, "rebuild") {
        RecoveryClass::Rebuild
    } else if same(s, "recreate") {
        RecoveryClass::Recreate
    } else if same(s, "manual") {
        RecoveryClass::Manual
    } else {
        RecoveryClass::Irreversible
    }
}

/// The class that consequences declare; without any it is irreversible.
pub open spec fn class_of(c: Option<ConsequencesView>) -> RecoveryClass {
    match c {
        Some(c) => class_named(c.recovery),
        None => RecoveryClass::Irreversible,
    }
}

pub fn recovery_class_of(c: Option<&Consequences>) -> (r: RecoveryClass)
    ensures
        r == class_of(
            match c {
                Some(k) => Some(k@),
                None => None,
            },
        ),
{
    match c {
        Some(k) => parse_recovery_class(k.recovery.as_str()),
        None => RecoveryClass::Irreversible,
    }
}

impl RecoveryClass {
    /// Its place in the order, the worst last.
    pub open spec fn level(self) -> u8 {
        match self {
            RecoveryClass::Auto => 0,
            RecoveryClass::Redownload => 1,
            RecoveryClass::Rebuild => 2,
            RecoveryClass::Recreate => 3,
            RecoveryClass::Manual => 4,
            RecoveryClass::Irreversible => 5,
        }
    }

    pub fn rank(&self) -> (r: u8)
        ensures
            r == self.level(),
    {
        match self {
            RecoveryClass::Auto => 0,
            RecoveryClass::Redownload => 1,
            RecoveryClass::Rebuild => 2,
            RecoveryClass::Recreate => 3,
            RecoveryClass::Manual => 4,
            RecoveryClass::Irreversible => 5,
        }
    }
}

/// What a grant is for.
#[derive(Debug, Clone, Copy, PartialEq, Eq, Structural)]
pub enum GrantCategory {
    BuildRecovery,
    RoutineCleanup,
    AgentAutonomy,
}

/// A bounded authority to act.
#[derive(Debug)]
pub struct Grant {
    pub category: GrantCategory,
    pub recovery_class_ceiling: RecoveryClass,
    pub max_bytes: u64,
    pub min_confidence: u32,
    pub path_scope: Option<String>,
    pub expires_at: i64,
}

/// The bound that an action fell out of.
#[derive(Debug, Clone, Copy, PartialEq, Eq, Structural)]
pub enum Denial {
    Ceiling,
    Confidence,
    Budget,
    Scope,
}

impl Denial {
    pub open spec fn text(self) -> Seq<char> {
        match self {
            Denial::Ceiling => "recovery class exceeds the grant's ceiling"@,
            Denial::Confidence => "confidence is below the grant's floor"@,
            Denial::Budget => "size exceeds the grant's remaining budget"@,
            Denial::Scope => "path is outside the grant's scope"@,
        }
    }

    /// The reason in words.
    pub fn reason(&self) -> (r: String)
        ensures
            r@ == self.text(),
    {
        match self {
            Denial::Ceiling => "recovery class exceeds the grant's ceiling".to_owned(),
            Denial::Confidence => "confidence is below the grant's floor".to_owned(),
            Denial::Budget => "size exceeds the grant's remaining budget".to_owned(),
            Denial::Scope => "path is outside the grant's scope".to_owned(),
        }
    }
}

#[derive(Debug, Clone, Copy, PartialEq, Eq, Structural)]
pub enum GrantDecision {
    Allow,
    Deny(Denial),
}

/// The scope of a grant accepts a path; without a scope every path is in it.
pub open spec fn in_scope(scope: Option<Seq<char>>, path: Seq<char>, home: Seq<char>) -> bool {
    match scope {
        Some(p) => glob_matches(expanded(p, home), path),
        None => true,
    }
}

/// What a grant says to removing `size` bytes of a class, when `spent` bytes went before: the
/// first bound that fails, else yes.
pub open spec fn decision(
    g: Grant,
    class: RecoveryClass,
    confidence: u32,
    size: u64,
    spent: u64,
    scoped: bool,
) -> GrantDecision {
    if class.level() > g.recovery_class_ceiling.level() {
        GrantDecision::Deny(Denial::Ceiling)
    } else if confidence < g.min_confidence {
        GrantDecision::Deny(Denial::Confidence)
    } else if spent + size > g.max_bytes {
        GrantDecision::Deny(Denial::Budget)
    } else if !scoped {
        GrantDecision::Deny(Denial::Scope)
    } else {
        GrantDecision::Allow
    }
}

/// What a grant says, given whether the path is in its scope.
pub fn decide(
    g: &Grant,
    class: RecoveryClass,
    confidence: u32,
    size: u64,
    spent: u64,
    scoped: bool,
) -> (r: GrantDecision)
    ensures
        r == decision(*g, class, confidence, size, spent, scoped),
{
    if class.rank() > g.recovery_class_ceiling.rank() {
        GrantDecision::Deny(Denial::Ceiling)
    } else if confidence < g.min_confidence {
        GrantDecision::Deny(Denial::Confidence)
    } else if spent as u128 + size as u128 > g.max_bytes as u128 {
        GrantDecision::Deny(Denial::Budget)
    } else if !scoped {
        GrantDecision::Deny(Denial::Scope)
    } else {
        GrantDecision::Allow
    }
}

/// What a grant says to an action on a path.
pub open spec fn ruling(
    g: Grant,
    consequences: Option<ConsequencesView>,
    confidence: u32,
    size: u64,
    path: Seq<char>,
    spent: u64,
    home: Seq<char>,
) -> GrantDecision {
    decision(
        g,
        class_of(consequences),
        confidence,
        size,
        spent,
        in_scope(opt_view(g.path_scope), path, home),
    )
}

/// Whether a grant allows an action: recovery class, confidence, the bytes spent so far and
/// the path all have to stay within its bounds.
pub fn allows(
    g: &Grant,
    consequences: Option<&Consequences>,
    confidence: u32,
    size: u64,
    path: &str,
    spent: u64,
    home: &str,
) -> (r: GrantDecision)
    ensures
        r == ruling(
            *g,
            match consequences {
                Some(k) => Some(k@),
                None => None,
            },
            confidence,
            size,
            path@,
            spent,
            home@,
        ),
{
    let scoped: bool = match &g.path_scope {
        Some(p) => {
            let pattern: String = expand_home(p.as_str(), home);
            glob_match(pattern.as_str(), path)
        },
        None => true,
    };
    decide(g, recovery_class_of(consequences), confidence, size, spent, scoped)
}

/// What a grant allows keeps within each of its bounds, the budget counted over everything
/// spent so far.
pub proof fn allowed_is_within_bounds(
    g: Grant,
    consequences: Option<ConsequencesView>,
    confidence: u32,
    size: u64,
    path: Seq<char>,
    spent: u64,
    home: Seq<char>,
)
    requires
        ruling(g, consequences, confidence, size, path, spent, home) == GrantDecision::Allow,
    ensures
        class_of(consequences).level() <= g.recovery_class_ceiling.level(),
        confidence >= g.min_confidence,
        spent + size <= g.max_bytes,
        in_scope(opt_view(g.path_scope), path, home),
{
}

/// Where nothing is known of the recovery, only a grant without a ceiling allows the action.
pub proof fn unknown_recovery_needs_the_widest_grant(
    g: Grant,
    confidence: u32,
    size: u64,
    path: Seq<char>,
    spent: u64,
    home: Seq<char>,
)
    requires
        g.recovery_class_ceiling != RecoveryClass::Irreversible,
    ensures
        ruling(g, None, confidence, size, path, spent, home) == GrantDecision::Deny(
            Denial::Ceiling,
        ),
{
}

} // verus!
