//! What to do with a directory that no rule covers: the safe action for the strategy that its
//! content suggests.

use crate::check::exit_code;
#[allow(unused_imports)]
use crate::check::check_exit;
use crate::history::{
    freed_between, freed_by_move, undo_command, ActionKind, Entry, MoveKind,
};
#[allow(unused_imports)]
use crate::history::{context_view, growth, moved, undo_text, ReceiptView};
use crate::model::CheckResult;
use crate::paths::{expand_home, file_name};
#[allow(unused_imports)]
use crate::paths::{expanded, file_name_spec};
use crate::text::{chars_of, is_ascii_alphanumeric};
#[allow(unused_imports)]
use crate::text::{is_alphanumeric, is_white_space, opt_str_view, opt_view};
use vstd::prelude::*;

verus! {

/// How many rows the table of unruled directories has.
pub const TABLE_ROWS: usize = 15;

/// From how many mebibytes a directory is in the table.
pub const TABLE_MIN_MB: u64 = 500;

// ---------------------------------------------------------------------------
// Strategies
// ---------------------------------------------------------------------------
#[derive(Debug, Clone, Copy, PartialEq, Eq, Structural)]
pub enum Strategy {
    /// Pack a git repository in place; nothing is lost.
    Repack,
    /// Move aside, to be restored or purged.
    Reclaim,
    /// Move the bytes to the cloud.
    Offload,
    /// Look first.
    Review,
    /// Leave alone.
    Keep,
}

impl Strategy {
    pub open spec fn text(self) -> Seq<char> {
        match self {
            Strategy::Repack => "repack"@,
            Strategy::Reclaim => "reclaim"@,
            Strategy::Offload => "offload"@,
            Strategy::Review => "review"@,
            Strategy::Keep => "keep"@,
        }
    }

    pub fn label(&self) -> (r: &'static str)
        ensures
            r@ == self.text(),
    {
        match self {
            Strategy::Repack => "repack",
            Strategy::Reclaim => "reclaim",
            Strategy::Offload => "offload",
            Strategy::Review => "review",
            Strategy::Keep => "keep",
        }
    }
}

/// What a directory was found to be.
#[derive(Debug)]
pub struct Classification {
    /// The label of the signature, such as `git-pack`.
    pub signature: String,
    pub strategy: Strategy,
    pub reasoning: String,
    pub est_savings_bytes: Option<u64>,
}

pub open spec fn hint_of(s: Strategy, path: Seq<char>) -> Seq<char> {
    match s {
        Strategy::Repack => "diskspace classify "@ + path + " --yes   (runs git gc, loss-free)"@,
        Strategy::Reclaim => "diskspace classify "@ + path
            + " --yes   (moves it to the airlock, reversible)"@,
        Strategy::Offload => "recommended: diskspace stow "@ + path,
        Strategy::Review => "inspect first: diskspace explain "@ + path,
        Strategy::Keep => "keep — no action for "@ + path,
    }
}

/// The next step for a strategy. An offload is only recommended; review and keep never act.
pub fn action_hint(s: Strategy, path: &str) -> (r: String)
    ensures
        r@ == hint_of(s, path@),
{
    match s {
        Strategy::Repack => {
            let mut out: String = "diskspace classify ".to_owned();
            out.append(path);
            out.append(" --yes   (runs git gc, loss-free)");
            out
        },
        Strategy::Reclaim => {
            let mut out: String = "diskspace classify ".to_owned();
            out.append(path);
            out.append(" --yes   (moves it to the airlock, reversible)");
            out
        },
        Strategy::Offload => {
            let mut out: String = "recommended: diskspace stow ".to_owned();
            out.append(path);
            out
        },
        Strategy::Review => {
            let mut out: String = "inspect first: diskspace explain ".to_owned();
            out.append(path);
            out
        },
        Strategy::Keep => {
            let mut out: String = "keep — no action for ".to_owned();
            out.append(path);
            out
        },
    }
}

// ---------------------------------------------------------------------------
// What to do
// ---------------------------------------------------------------------------
/// What the command does.
#[derive(Debug)]
pub enum ClassifyStep {
    /// Show the largest unruled directories; nothing is touched.
    Table,
    /// There is nothing at this path.
    NotFound(String),
    /// Show what the path is, and the command that would act.
    Suggest(String),
    /// Pack the repository.
    Repack(String),
    /// Check the path, then move it into the airlock.
    Reclaim(String),
    /// Point to `stow`.
    OfferStow(String),
    /// Show what the path is and leave it.
    Leave(String),
}

pub ghost enum ClassifyStepView {
    Table,
    NotFound(Seq<char>),
    Suggest(Seq<char>),
    Repack(Seq<char>),
    Reclaim(Seq<char>),
    OfferStow(Seq<char>),
    Leave(Seq<char>),
}

impl View for ClassifyStep {
    type V = ClassifyStepView;

    open spec fn view(&self) -> ClassifyStepView {
        match self {
            ClassifyStep::Table => ClassifyStepView::Table,
            ClassifyStep::NotFound(p) => ClassifyStepView::NotFound(p@),
            ClassifyStep::Suggest(p) => ClassifyStepView::Suggest(p@),
            ClassifyStep::Repack(p) => ClassifyStepView::Repack(p@),
            ClassifyStep::Reclaim(p) => ClassifyStepView::Reclaim(p@),
            ClassifyStep::OfferStow(p) => ClassifyStepView::OfferStow(p@),
            ClassifyStep::Leave(p) => ClassifyStepView::Leave(p@),
        }
    }
}

/// `strategy` is that of the path, none where there is nothing at it.
pub open spec fn step_for(
    target: Option<Seq<char>>,
    yes: bool,
    home: Seq<char>,
    strategy: Option<Strategy>,
) -> ClassifyStepView {
    match target {
        None => ClassifyStepView::Table,
        Some(raw) => {
            let path = expanded(raw, home);
            match strategy {
                None => ClassifyStepView::NotFound(path),
                Some(s) => if !yes {
                    ClassifyStepView::Suggest(path)
                } else {
                    match s {
                        Strategy::Repack => ClassifyStepView::Repack(path),
                        Strategy::Reclaim => ClassifyStepView::Reclaim(path),
                        Strategy::Offload => ClassifyStepView::OfferStow(path),
                        Strategy::Review => ClassifyStepView::Leave(path),
                        Strategy::Keep => ClassifyStepView::Leave(path),
                    }
                },
            }
        },
    }
}

/// Decides what the command does with a target. `found` is what the path is, none where there is
/// nothing at it.
pub fn run(target: Option<&str>, yes: bool, home: &str, found: Option<&Classification>) -> (r:
    ClassifyStep)
    ensures
        r@ == step_for(
            opt_str_view(target),
            yes,
            home@,
            match found {
                Some(c) => Some(c.strategy),
                None => None,
            },
        ),
{
    let raw: &str = match target {
        None => {
            return ClassifyStep::Table;
        },
        Some(raw) => raw,
    };
    let path: String = expand_home(raw, home);
    match found {
        None => ClassifyStep::NotFound(path),
        Some(c) => if !yes {
            ClassifyStep::Suggest(path)
        } else {
            match c.strategy {
                Strategy::Repack => ClassifyStep::Repack(path),
                Strategy::Reclaim => ClassifyStep::Reclaim(path),
                Strategy::Offload => ClassifyStep::OfferStow(path),
                Strategy::Review => ClassifyStep::Leave(path),
                Strategy::Keep => ClassifyStep::Leave(path),
            }
        },
    }
}

/// Nothing is changed on the disk without consent, and never on an offload, a review or a keep.
pub proof fn classify_acts_only_on_consent(
    target: Option<Seq<char>>,
    yes: bool,
    home: Seq<char>,
    strategy: Option<Strategy>,
)
    ensures
        ({
            let s = step_for(target, yes, home, strategy);
            (s is Repack || s is Reclaim) ==> yes && (strategy == Some(Strategy::Repack) || strategy
                == Some(Strategy::Reclaim))
        }),
{
}

// ---------------------------------------------------------------------------
// Reports
// ---------------------------------------------------------------------------
/// A classification as it is reported.
#[derive(Debug)]
pub struct ClassificationReport {
    pub path: String,
    pub status: String,
    pub signature: String,
    pub strategy: &'static str,
    pub reasoning: String,
    pub action: String,
    pub est_savings_bytes: Option<u64>,
    pub note: Option<String>,
}

pub fn classification_report(path: &str, c: &Classification, status: &str, note: Option<&str>) -> (r:
    ClassificationReport)
    ensures
        r.path@ == path@,
        r.status@ == status@,
        r.signature@ == c.signature@,
        r.strategy@ == c.strategy.text(),
        r.reasoning@ == c.reasoning@,
        r.action@ == hint_of(c.strategy, path@),
        r.est_savings_bytes == c.est_savings_bytes,
        opt_view(r.note) == opt_str_view(note),
{
    ClassificationReport {
        path: path.to_owned(),
        status: status.to_owned(),
        signature: c.signature.as_str().to_owned(),
        strategy: c.strategy.label(),
        reasoning: c.reasoning.as_str().to_owned(),
        action: action_hint(c.strategy, path),
        est_savings_bytes: c.est_savings_bytes,
        note: match note {
            Some(n) => Some(n.to_owned()),
            None => None,
        },
    }
}

/// The labels of a table row; a directory that was not classified is unknown and for review.
pub fn row_labels(found: Option<&Classification>) -> (r: (String, &'static str))
    ensures
        match found {
            Some(c) => r.0@ == c.signature@ && r.1@ == c.strategy.text(),
            None => r.0@ == "unknown"@ && r.1@ == "review"@,
        },
{
    match found {
        Some(c) => (c.signature.as_str().to_owned(), c.strategy.label()),
        None => ("unknown".to_owned(), "review"),
    }
}

// ---------------------------------------------------------------------------
// Reclaiming
// ---------------------------------------------------------------------------
/// A name with everything but ASCII letters and digits made a dash.
pub open spec fn dashed(name: Seq<char>) -> Seq<char> {
    name.map_values(
        |c: char|
            if is_alphanumeric(c) {
                c
            } else {
                '-'
            },
    )
}

/// The tag of a path: its last name, dashed; `dir` where it has none.
pub open spec fn tag_of(path: Seq<char>) -> Seq<char> {
    match file_name_spec(path) {
        Some(n) => if n.len() == 0 {
            "dir"@
        } else {
            dashed(n)
        },
        None => "dir"@,
    }
}

pub fn file_tag(path: &str) -> (r: String)
    ensures
        r@ == tag_of(path@),
{
    let name: String = match file_name(path) {
        Some(n) => n,
        None => {
            return "dir".to_owned();
        },
    };
    let v: Vec<char> = chars_of(name.as_str());
    if v.len() == 0 {
        return "dir".to_owned();
    }
    let mut out: String = String::new();
    let mut i: usize = 0;
    while i < v.len()
        invariant
            i <= v@.len(),
            v@ == name@,
            out@ == dashed(name@.take(i as int)),
        decreases v.len() - i,
    {
        let c: char = if is_ascii_alphanumeric(v[i]) {
            v[i]
        } else {
            '-'
        };
        out.push(c);
        assert(dashed(name@.take(i as int)).push(c) =~= dashed(name@.take(i + 1)));
        i += 1;
    }
    assert(name@.take(i as int) =~= name@);
    out
}

/// A tag is safe in a file name and is a word: it is not empty, and each of its characters is an
/// ASCII letter, a digit or a dash.
pub proof fn tags_are_safe(path: Seq<char>)
    ensures
        tag_of(path).len() > 0,
        forall|i: int|
            0 <= i < tag_of(path).len() ==> is_alphanumeric(#[trigger] tag_of(path)[i])
                || tag_of(path)[i] == '-',
        forall|i: int|
            0 <= i < tag_of(path).len() ==> !is_white_space(#[trigger] tag_of(path)[i]),
{
    reveal_strlit("dir");
}

/// The id under which a classified path is checked and moved.
pub fn reclaim_id(path: &str) -> (r: String)
    ensures
        r@ == "classify-reclaim-"@ + tag_of(path@),
{
    let mut out: String = "classify-reclaim-".to_owned();
    let tag: String = file_tag(path);
    out.append(tag.as_str());
    out
}

/// Whether a checked path may be moved; if not, the code to exit with.
pub fn act_reclaim(check: &CheckResult) -> (r: Result<(), i32>)
    ensures
        match r {
            Ok(_) => check@.safe,
            Err(code) => !check@.safe && code == check_exit(false, check@.steps),
        },
{
    if check.safe {
        Ok(())
    } else {
        Err(exit_code(check))
    }
}

pub open spec fn classify_receipt(
    id: Seq<char>,
    signature: Seq<char>,
    path: Seq<char>,
    entry_id: Seq<char>,
    size: u64,
    kind: MoveKind,
    before: Option<u64>,
    after: Option<u64>,
    ts: i64,
) -> ReceiptView {
    ReceiptView {
        ts,
        command: ActionKind::Airlock,
        candidate_id: Some(id),
        rule_id: Some("classify:"@ + signature),
        path,
        size_bytes: size,
        df_before: before,
        df_after: after,
        actually_freed: moved(kind, before, after),
        reversible: true,
        undo_cmd: Some(undo_text(entry_id)),
        rule_confidence: None,
        context: seq![("move_kind"@, kind.text()), ("via"@, "classify"@)],
    }
}

/// The receipt of a classified path that went into the airlock as `entry_id`.
pub fn reclaimed_receipt(
    path: &str,
    c: &Classification,
    entry_id: &str,
    size: u64,
    kind: MoveKind,
    before: Option<u64>,
    after: Option<u64>,
    ts: i64,
) -> (r: Entry)
    ensures
        r@ == classify_receipt(
            "classify-reclaim-"@ + tag_of(path@),
            c.signature@,
            path@,
            entry_id@,
            size,
            kind,
            before,
            after,
            ts,
        ),
{
    let mut context: Vec<(String, String)> = Vec::new();
    context.push(("move_kind".to_owned(), kind.as_str().to_owned()));
    context.push(("via".to_owned(), "classify".to_owned()));
    assert(context_view(context@) =~= seq![("move_kind"@, kind.text()), ("via"@, "classify"@)]);
    let mut rule: String = "classify:".to_owned();
    rule.append(c.signature.as_str());
    Entry {
        ts,
        command: ActionKind::Airlock,
        candidate_id: Some(reclaim_id(path)),
        rule_id: Some(rule),
        path: path.to_owned(),
        size_bytes: size,
        df_before: before,
        df_after: after,
        actually_freed: freed_by_move(kind, before, after),
        reversible: true,
        undo_cmd: Some(undo_command(entry_id)),
        rule_confidence: None,
        context,
    }
}

pub open spec fn repack_receipt(
    signature: Seq<char>,
    path: Seq<char>,
    size: u64,
    before: Option<u64>,
    after: Option<u64>,
    ts: i64,
) -> ReceiptView {
    ReceiptView {
        ts,
        command: ActionKind::Repack,
        candidate_id: None,
        rule_id: Some("classify:"@ + signature),
        path,
        size_bytes: size,
        df_before: before,
        df_after: after,
        actually_freed: growth(before, after),
        reversible: false,
        undo_cmd: None,
        rule_confidence: None,
        context: seq![("via"@, "classify"@)],
    }
}

/// The receipt of a repository that was packed in place; `size` is what its git directory held.
pub fn repacked_receipt(
    path: &str,
    c: &Classification,
    size: u64,
    before: Option<u64>,
    after: Option<u64>,
    ts: i64,
) -> (r: Entry)
    ensures
        r@ == repack_receipt(c.signature@, path@, size, before, after, ts),
{
    let mut context: Vec<(String, String)> = Vec::new();
    context.push(("via".to_owned(), "classify".to_owned()));
    assert(context_view(context@) =~= seq![("via"@, "classify"@)]);
    let mut rule: String = "classify:".to_owned();
    rule.append(c.signature.as_str());
    Entry {
        ts,
        command: ActionKind::Repack,
        candidate_id: None,
        rule_id: Some(rule),
        path: path.to_owned(),
        size_bytes: size,
        df_before: before,
        df_after: after,
        actually_freed: freed_between(before, after),
        reversible: false,
        undo_cmd: None,
        rule_confidence: None,
        context,
    }
}

} // verus!
