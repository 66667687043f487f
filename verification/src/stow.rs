//! Moving the bytes of cloud-synced data off the local disk. The data stays in the cloud, so
//! every action can be reversed, and nothing is ever deleted.

use crate::drill::falling_key_of;
#[allow(unused_imports)]
use crate::drill::falling_key;
use crate::history::{freed_between, ActionKind, Entry};
#[allow(unused_imports)]
use crate::history::{context_view, growth, reversal_of, undoable, ReceiptView, ReversalView};
use crate::order::{marked_positions, order_of, Key};
#[allow(unused_imports)]
use crate::order::{
    indices, key_views, lemma_marked, lemma_stable_order, marked, sorted_stably, stable_order,
};
use crate::paths::{expand_home, join_path, parts_of, starts_with};
#[allow(unused_imports)]
use crate::paths::{expanded, joined_path, parts, under};
use crate::text::{has_prefix, join};
#[allow(unused_imports)]
use crate::text::{joined, opt_str_view, views};
use vstd::prelude::*;

verus! {

/// How many unruled directories the advisor looks at.
pub const ADVISOR_ROWS: usize = 50;

/// From how many mebibytes the advisor looks at a directory.
pub const ADVISOR_MIN_MB: u64 = 500;

// ---------------------------------------------------------------------------
// Providers
// ---------------------------------------------------------------------------
/// The cloud client that owns a path.
#[derive(Debug, Clone, Copy, PartialEq, Eq, Structural)]
pub enum CloudProvider {
    ICloud,
    /// Dropbox in its own folder.
    DropboxClassic,
    /// Dropbox under the system's file provider.
    DropboxFileProvider,
    /// The path is not synced.
    NotCloud,
}

impl CloudProvider {
    pub open spec fn text(self) -> Seq<char> {
        match self {
            CloudProvider::ICloud => "icloud"@,
            CloudProvider::DropboxClassic => "dropbox-classic"@,
            CloudProvider::DropboxFileProvider => "dropbox-file-provider"@,
            CloudProvider::NotCloud => "none"@,
        }
    }

    pub fn label(&self) -> (r: &'static str)
        ensures
            r@ == self.text(),
    {
        match self {
            CloudProvider::ICloud => "icloud",
            CloudProvider::DropboxClassic => "dropbox-classic",
            CloudProvider::DropboxFileProvider => "dropbox-file-provider",
            CloudProvider::NotCloud => "none",
        }
    }
}

/// The folder that iCloud syncs.
pub open spec fn icloud_root(home: Seq<char>) -> Seq<char> {
    joined_path(home, "Library/Mobile Documents"@)
}

/// The folder under which file providers keep theirs.
pub open spec fn file_provider_root(home: Seq<char>) -> Seq<char> {
    joined_path(home, "Library/CloudStorage"@)
}

/// The path lies in a file provider's folder whose name begins with `Dropbox`.
pub open spec fn in_file_provider(path: Seq<char>, home: Seq<char>) -> bool {
    let root = file_provider_root(home);
    &&& under(path, root)
    &&& parts(path).len() > parts(root).len()
    &&& "Dropbox"@.is_prefix_of(parts(path)[parts(root).len() as int])
}

/// Who syncs a path. The folder `Dropbox` counts where the client has marked it as its own.
pub open spec fn provider_of(path: Seq<char>, home: Seq<char>, marked_dropbox: bool) -> CloudProvider {
    if under(path, icloud_root(home)) {
        CloudProvider::ICloud
    } else if in_file_provider(path, home) {
        CloudProvider::DropboxFileProvider
    } else if marked_dropbox && under(path, joined_path(home, "Dropbox"@)) {
        CloudProvider::DropboxClassic
    } else {
        CloudProvider::NotCloud
    }
}

pub fn detect_provider(path: &str, home: &str, marked_dropbox: bool) -> (r: CloudProvider)
    ensures
        r == provider_of(path@, home@, marked_dropbox),
{
    let icloud: String = join_path(home, "Library/Mobile Documents");
    if starts_with(path, icloud.as_str()) {
        return CloudProvider::ICloud;
    }
    let storage: String = join_path(home, "Library/CloudStorage");
    let p: Vec<String> = parts_of(path);
    let q: Vec<String> = parts_of(storage.as_str());
    assert(parts(path@).len() == p@.len() && parts(storage@).len() == q@.len());
    if starts_with(path, storage.as_str()) && p.len() > q.len() {
        assert(parts(path@)[q@.len() as int] == p@[q@.len() as int]@);
        if has_prefix(p[q.len()].as_str(), "Dropbox") {
            return CloudProvider::DropboxFileProvider;
        }
    }
    let dropbox: String = join_path(home, "Dropbox");
    if marked_dropbox && starts_with(path, dropbox.as_str()) {
        CloudProvider::DropboxClassic
    } else {
        CloudProvider::NotCloud
    }
}

// ---------------------------------------------------------------------------
// Mechanisms
// ---------------------------------------------------------------------------
/// How the bytes of a path can leave the disk.
#[derive(Debug, Clone, Copy, PartialEq, Eq, Structural)]
pub enum OffloadMechanism {
    ICloudEvict,
    MaestralExclude,
    /// Only by hand, in Finder.
    AdviseFinder,
    /// By hand: eviction cannot be relied on.
    AdviseFragileEvict,
    NotApplicable,
}

impl OffloadMechanism {
    pub open spec fn text(self) -> Seq<char> {
        match self {
            OffloadMechanism::ICloudEvict => "icloud-evict"@,
            OffloadMechanism::MaestralExclude => "maestral-exclude"@,
            OffloadMechanism::AdviseFinder => "advise-finder"@,
            OffloadMechanism::AdviseFragileEvict => "advise-fragile-evict"@,
            OffloadMechanism::NotApplicable => "not-applicable"@,
        }
    }

    pub fn label(&self) -> (r: &'static str)
        ensures
            r@ == self.text(),
    {
        match self {
            OffloadMechanism::ICloudEvict => "icloud-evict",
            OffloadMechanism::MaestralExclude => "maestral-exclude",
            OffloadMechanism::AdviseFinder => "advise-finder",
            OffloadMechanism::AdviseFragileEvict => "advise-fragile-evict",
            OffloadMechanism::NotApplicable => "not-applicable",
        }
    }

    /// A command can do it.
    pub open spec fn actionable(self) -> bool {
        self == OffloadMechanism::ICloudEvict || self == OffloadMechanism::MaestralExclude
    }

    pub fn is_actionable(&self) -> (r: bool)
        ensures
            r == self.actionable(),
    {
        match self {
            OffloadMechanism::ICloudEvict | OffloadMechanism::MaestralExclude => true,
            _ => false,
        }
    }
}

/// Whether it matters for a provider which client is active.
pub fn mechanism_needs_maestral(provider: CloudProvider) -> (r: bool)
    ensures
        r == (provider == CloudProvider::DropboxClassic),
{
    match provider {
        CloudProvider::DropboxClassic => true,
        _ => false,
    }
}

/// The safe mechanism for a provider. Maestral counts for a classic Dropbox alone.
pub open spec fn mechanism_of(provider: CloudProvider, maestral: bool) -> OffloadMechanism {
    match provider {
        CloudProvider::ICloud => OffloadMechanism::ICloudEvict,
        CloudProvider::DropboxClassic => if maestral {
            OffloadMechanism::MaestralExclude
        } else {
            OffloadMechanism::AdviseFinder
        },
        CloudProvider::DropboxFileProvider => OffloadMechanism::AdviseFragileEvict,
        CloudProvider::NotCloud => OffloadMechanism::NotApplicable,
    }
}

pub fn offload_mechanism(provider: CloudProvider, maestral: bool) -> (r: OffloadMechanism)
    ensures
        r == mechanism_of(provider, maestral),
{
    match provider {
        CloudProvider::ICloud => OffloadMechanism::ICloudEvict,
        CloudProvider::DropboxClassic => if maestral {
            OffloadMechanism::MaestralExclude
        } else {
            OffloadMechanism::AdviseFinder
        },
        CloudProvider::DropboxFileProvider => OffloadMechanism::AdviseFragileEvict,
        CloudProvider::NotCloud => OffloadMechanism::NotApplicable,
    }
}

/// The command that offloads a path, where there is one.
pub open spec fn argv_of(m: OffloadMechanism, path: Seq<char>) -> Option<Seq<Seq<char>>> {
    match m {
        OffloadMechanism::ICloudEvict => Some(seq!["brctl"@, "evict"@, path]),
        OffloadMechanism::MaestralExclude => Some(
            seq!["maestral"@, "excluded"@, "add"@, path],
        ),
        _ => None,
    }
}

pub open spec fn opt_views(o: Option<Vec<String>>) -> Option<Seq<Seq<char>>> {
    match o {
        Some(v) => Some(views(v@)),
        None => None,
    }
}

pub fn offload_argv(m: OffloadMechanism, path: &str) -> (r: Option<Vec<String>>)
    ensures
        opt_views(r) == argv_of(m, path@),
{
    match m {
        OffloadMechanism::ICloudEvict => {
            let mut v: Vec<String> = Vec::new();
            v.push("brctl".to_owned());
            v.push("evict".to_owned());
            v.push(path.to_owned());
            assert(views(v@) =~= seq!["brctl"@, "evict"@, path@]);
            Some(v)
        },
        OffloadMechanism::MaestralExclude => {
            let mut v: Vec<String> = Vec::new();
            v.push("maestral".to_owned());
            v.push("excluded".to_owned());
            v.push("add".to_owned());
            v.push(path.to_owned());
            assert(views(v@) =~= seq!["maestral"@, "excluded"@, "add"@, path@]);
            Some(v)
        },
        _ => None,
    }
}

/// The only commands that are ever run evict from iCloud or exclude with Maestral; no command
/// deletes anything, and outside those two there is none.
pub proof fn offload_commands_never_delete(m: OffloadMechanism, path: Seq<char>)
    ensures
        argv_of(m, path) is Some <==> m.actionable(),
        argv_of(m, path) matches Some(v) ==> (v == seq!["brctl"@, "evict"@, path] || v
            == seq!["maestral"@, "excluded"@, "add"@, path]),
{
}

// ---------------------------------------------------------------------------
// One path
// ---------------------------------------------------------------------------
/// What is known of a path that is there.
#[derive(Debug, Clone, Copy, PartialEq, Eq, Structural)]
pub struct CloudSight {
    pub provider: CloudProvider,
    /// Maestral is the active client.
    pub maestral: bool,
    /// Some of its bytes are on the disk.
    pub local: bool,
}

/// What the command does.
#[derive(Debug)]
pub enum StowStep {
    /// List what could be offloaded; nothing is touched.
    Advisor,
    /// There is nothing at this path.
    NotFound(String),
    /// None of its bytes are on the disk.
    AlreadyOffloaded(String),
    /// Show the command that would offload it.
    Suggest(String, Vec<String>),
    /// Run the command that offloads it.
    Offload(String, Vec<String>),
    /// Tell how to do it in Finder.
    AdviseFinder(String),
    /// Tell how to do it in Finder, and why nothing else is safe.
    AdviseFragileEvict(String),
    /// The path is not synced.
    NotApplicable(String),
}

pub ghost enum StowStepView {
    Advisor,
    NotFound(Seq<char>),
    AlreadyOffloaded(Seq<char>),
    Suggest(Seq<char>, Seq<Seq<char>>),
    Offload(Seq<char>, Seq<Seq<char>>),
    AdviseFinder(Seq<char>),
    AdviseFragileEvict(Seq<char>),
    NotApplicable(Seq<char>),
}

impl View for StowStep {
    type V = StowStepView;

    open spec fn view(&self) -> StowStepView {
        match self {
            StowStep::Advisor => StowStepView::Advisor,
            StowStep::NotFound(p) => StowStepView::NotFound(p@),
            StowStep::AlreadyOffloaded(p) => StowStepView::AlreadyOffloaded(p@),
            StowStep::Suggest(p, a) => StowStepView::Suggest(p@, views(a@)),
            StowStep::Offload(p, a) => StowStepView::Offload(p@, views(a@)),
            StowStep::AdviseFinder(p) => StowStepView::AdviseFinder(p@),
            StowStep::AdviseFragileEvict(p) => StowStepView::AdviseFragileEvict(p@),
            StowStep::NotApplicable(p) => StowStepView::NotApplicable(p@),
        }
    }
}

/// `sight` is what is known of the path, none where there is nothing at it.
pub open spec fn stow_step(
    target: Option<Seq<char>>,
    yes: bool,
    home: Seq<char>,
    sight: Option<CloudSight>,
) -> StowStepView {
    match target {
        None => StowStepView::Advisor,
        Some(raw) => {
            let path = expanded(raw, home);
            match sight {
                None => StowStepView::NotFound(path),
                Some(s) => {
                    let m = mechanism_of(s.provider, s.maestral);
                    if s.provider != CloudProvider::NotCloud && !s.local {
                        StowStepView::AlreadyOffloaded(path)
                    } else {
                        match argv_of(m, path) {
                            Some(argv) => if yes {
                                StowStepView::Offload(path, argv)
                            } else {
                                StowStepView::Suggest(path, argv)
                            },
                            None => match m {
                                OffloadMechanism::AdviseFinder => StowStepView::AdviseFinder(path),
                                OffloadMechanism::AdviseFragileEvict => {
                                    StowStepView::AdviseFragileEvict(path)
                                },
                                _ => StowStepView::NotApplicable(path),
                            },
                        }
                    }
                },
            }
        },
    }
}

/// Decides what the command does with a target. `sight` is what is known of the path, none where
/// there is nothing at it.
pub fn run(target: Option<&str>, yes: bool, home: &str, sight: Option<CloudSight>) -> (r: StowStep)
    ensures
        r@ == stow_step(opt_str_view(target), yes, home@, sight),
{
    let raw: &str = match target {
        None => {
            return StowStep::Advisor;
        },
        Some(raw) => raw,
    };
    let path: String = expand_home(raw, home);
    let s: CloudSight = match sight {
        None => {
            return StowStep::NotFound(path);
        },
        Some(s) => s,
    };
    let m: OffloadMechanism = offload_mechanism(s.provider, s.maestral);
    if s.provider != CloudProvider::NotCloud && !s.local {
        return StowStep::AlreadyOffloaded(path);
    }
    match offload_argv(m, path.as_str()) {
        Some(argv) => if yes {
            StowStep::Offload(path, argv)
        } else {
            StowStep::Suggest(path, argv)
        },
        None => match m {
            OffloadMechanism::AdviseFinder => StowStep::AdviseFinder(path),
            OffloadMechanism::AdviseFragileEvict => StowStep::AdviseFragileEvict(path),
            _ => StowStep::NotApplicable(path),
        },
    }
}

/// A command is run only on consent, on a path that is there, synced, and on the disk.
pub proof fn stow_acts_only_on_consent(
    target: Option<Seq<char>>,
    yes: bool,
    home: Seq<char>,
    sight: Option<CloudSight>,
)
    ensures
        stow_step(target, yes, home, sight) is Offload ==> yes && (sight matches Some(s) && s.local
            && s.provider != CloudProvider::NotCloud),
{
}

/// A classic Dropbox whose own client is active is never touched: only advice is given, with
/// consent or without.
pub proof fn classic_dropbox_is_never_touched(
    raw: Seq<char>,
    yes: bool,
    home: Seq<char>,
    local: bool,
)
    ensures
        ({
            let s = stow_step(
                Some(raw),
                yes,
                home,
                Some(CloudSight { provider: CloudProvider::DropboxClassic, maestral: false, local }),
            );
            s == StowStepView::AdviseFinder(expanded(raw, home)) || s
                == StowStepView::AlreadyOffloaded(expanded(raw, home))
        }),
{
}

/// The code to exit with after a command was run.
pub fn offload_exit(ran_ok: bool) -> (r: i32)
    ensures
        r == if ran_ok {
            0i32
        } else {
            2
        },
{
    if ran_ok {
        0
    } else {
        2
    }
}

/// The bytes to show as offloaded: what came free, else what was expected to.
pub fn shown_freed(before: Option<u64>, after: Option<u64>, size: u64) -> (r: u64)
    ensures
        r == match growth(before, after) {
            Some(f) => f,
            None => size,
        },
{
    match freed_between(before, after) {
        Some(f) => f,
        None => size,
    }
}

/// How to make a file online-only by hand.
pub fn finder_steps() -> (r: Vec<&'static str>)
    ensures
        r@.len() == 3,
        r@[0]@ == "Open the file's folder in Finder."@,
        r@[1]@ == "Right-click the file (or folder)."@,
        r@[2]@ == "Choose \"Make online-only\" (Dropbox Smart Sync)."@,
{
    let mut v: Vec<&'static str> = Vec::new();
    v.push("Open the file's folder in Finder.");
    v.push("Right-click the file (or folder).");
    v.push("Choose \"Make online-only\" (Dropbox Smart Sync).");
    v
}

// ---------------------------------------------------------------------------
// The receipt
// ---------------------------------------------------------------------------
/// How an offload is undone.
pub open spec fn offload_undo(m: OffloadMechanism, path: Seq<char>) -> Option<Seq<char>> {
    match m {
        OffloadMechanism::ICloudEvict => Some("open the file to re-download it from iCloud"@),
        OffloadMechanism::MaestralExclude => Some("maestral excluded remove "@ + path),
        _ => None,
    }
}

pub open spec fn stow_receipt(
    path: Seq<char>,
    provider: CloudProvider,
    m: OffloadMechanism,
    size: u64,
    before: Option<u64>,
    after: Option<u64>,
    ts: i64,
) -> ReceiptView {
    ReceiptView {
        ts,
        command: ActionKind::Offload,
        candidate_id: None,
        rule_id: Some("stow:"@ + provider.text()),
        path,
        size_bytes: size,
        df_before: before,
        df_after: after,
        actually_freed: growth(before, after),
        reversible: true,
        undo_cmd: offload_undo(m, path),
        rule_confidence: None,
        context: seq![
            ("provider"@, provider.text()),
            ("mechanism"@, m.text()),
            ("via"@, "stow"@),
        ],
    }
}

/// The receipt of an offload: reversible, with the free space before and after it.
pub fn offload_receipt(
    path: &str,
    provider: CloudProvider,
    m: OffloadMechanism,
    size: u64,
    before: Option<u64>,
    after: Option<u64>,
    ts: i64,
) -> (r: Entry)
    ensures
        r@ == stow_receipt(path@, provider, m, size, before, after, ts),
{
    let mut context: Vec<(String, String)> = Vec::new();
    context.push(("provider".to_owned(), provider.label().to_owned()));
    context.push(("mechanism".to_owned(), m.label().to_owned()));
    context.push(("via".to_owned(), "stow".to_owned()));
    assert(context_view(context@) =~= seq![
        ("provider"@, provider.text()),
        ("mechanism"@, m.text()),
        ("via"@, "stow"@),
    ]);
    let mut rule: String = "stow:".to_owned();
    rule.append(provider.label());
    let undo: Option<String> = match m {
        OffloadMechanism::ICloudEvict => Some(
            "open the file to re-download it from iCloud".to_owned(),
        ),
        OffloadMechanism::MaestralExclude => {
            let mut u: String = "maestral excluded remove ".to_owned();
            u.append(path);
            Some(u)
        },
        _ => None,
    };
    Entry {
        ts,
        command: ActionKind::Offload,
        candidate_id: None,
        rule_id: Some(rule),
        path: path.to_owned(),
        size_bytes: size,
        df_before: before,
        df_after: after,
        actually_freed: freed_between(before, after),
        reversible: true,
        undo_cmd: undo,
        rule_confidence: None,
        context,
    }
}

/// Every offload that was run can be undone, by opening the file or by the command that takes it
/// back into the sync.
pub proof fn offload_can_be_undone(
    path: Seq<char>,
    provider: CloudProvider,
    m: OffloadMechanism,
    size: u64,
    before: Option<u64>,
    after: Option<u64>,
    ts: i64,
)
    requires
        argv_of(m, path) is Some,
    ensures
        ({
            let receipt = stow_receipt(path, provider, m, size, before, after, ts);
            undoable(receipt) && (reversal_of(receipt) == Some(ReversalView::Open(path))
                || reversal_of(receipt) == Some(
                ReversalView::Run(seq!["maestral"@, "excluded"@, "remove"@, path]),
            ))
        }),
{
}

// ---------------------------------------------------------------------------
// The advisor
// ---------------------------------------------------------------------------
/// An unruled directory as the advisor sees it.
#[derive(Debug)]
pub struct UnruledDir {
    pub path: String,
    /// Its content is best offloaded.
    pub offload: bool,
    pub provider: CloudProvider,
    pub maestral: bool,
    pub local: bool,
    pub bytes: u128,
}

/// A directory that can be offloaded.
#[derive(Debug)]
pub struct AdvisorRow {
    pub path: String,
    pub provider: CloudProvider,
    pub mechanism: OffloadMechanism,
    pub bytes: u128,
}

pub ghost struct AdvisorRowView {
    pub path: Seq<char>,
    pub provider: CloudProvider,
    pub mechanism: OffloadMechanism,
    pub bytes: nat,
}

impl View for AdvisorRow {
    type V = AdvisorRowView;

    open spec fn view(&self) -> AdvisorRowView {
        AdvisorRowView {
            path: self.path@,
            provider: self.provider,
            mechanism: self.mechanism,
            bytes: self.bytes as nat,
        }
    }
}

pub open spec fn advisor_views(v: Seq<AdvisorRow>) -> Seq<AdvisorRowView> {
    v.map_values(|r: AdvisorRow| r@)
}

/// Best offloaded, synced, and still on the disk.
pub open spec fn can_leave(d: UnruledDir) -> bool {
    d.offload && d.provider != CloudProvider::NotCloud && d.local
}

pub open spec fn leave_flags(v: Seq<UnruledDir>) -> Seq<bool> {
    v.map_values(|d: UnruledDir| can_leave(d))
}

pub open spec fn advisor_row(d: UnruledDir) -> AdvisorRowView {
    AdvisorRowView {
        path: d.path@,
        provider: d.provider,
        mechanism: mechanism_of(d.provider, d.maestral),
        bytes: d.bytes as nat,
    }
}

/// The positions of the directories that can be offloaded, the largest first.
pub open spec fn leaving_order(v: Seq<UnruledDir>) -> Seq<int> {
    let picks = marked(leave_flags(v));
    sorted_stably(picks, leaving_keys(v, picks))
}

pub open spec fn leaving_keys(v: Seq<UnruledDir>, picks: Seq<int>) -> Seq<Seq<Seq<int>>> {
    picks.map_values(|i: int| falling_key(v[i].bytes as nat))
}

pub open spec fn advisor_rows(v: Seq<UnruledDir>) -> Seq<AdvisorRowView> {
    leaving_order(v).map_values(|i: int| advisor_row(v[i]))
}

/// The directories that can be offloaded, the largest first.
pub fn stow_advisor(v: &Vec<UnruledDir>) -> (r: Vec<AdvisorRow>)
    ensures
        advisor_views(r@) == advisor_rows(v@),
{
    let mut flags: Vec<bool> = Vec::new();
    let mut i: usize = 0;
    while i < v.len()
        invariant
            i <= v@.len(),
            flags@.len() == i,
            forall|j: int| 0 <= j < i ==> #[trigger] flags@[j] == can_leave(v@[j]),
        decreases v.len() - i,
    {
        flags.push(v[i].offload && v[i].provider != CloudProvider::NotCloud && v[i].local);
        i += 1;
    }
    assert(flags@ =~= leave_flags(v@));
    let picks: Vec<usize> = marked_positions(&flags);
    let ghost p = indices(picks@);
    assert(p.len() == picks@.len());
    let mut keys: Vec<Key> = Vec::new();
    let mut k: usize = 0;
    while k < picks.len()
        invariant
            k <= picks@.len(),
            forall|j: int| 0 <= j < picks@.len() ==> #[trigger] picks@[j] < v@.len(),
            keys@.len() == k,
            forall|j: int|
                0 <= j < k ==> (#[trigger] keys@[j])@ == falling_key(
                    v@[picks@[j] as int].bytes as nat,
                ),
        decreases picks.len() - k,
    {
        keys.push(falling_key_of(v[picks[k]].bytes));
        k += 1;
    }
    assert(key_views(keys@) =~= leaving_keys(v@, p)) by {
        assert forall|j: int| 0 <= j < keys@.len() implies (#[trigger] keys@[j])@ == falling_key(
            v@[p[j]].bytes as nat,
        ) by {}
    }
    let order: Vec<usize> = order_of(&keys);
    let ghost o = indices(order@);
    proof {
        lemma_stable_order(key_views(keys@));
    }
    assert(o.len() == order@.len());
    let mut out: Vec<AdvisorRow> = Vec::new();
    let mut n: usize = 0;
    while n < order.len()
        invariant
            n <= order@.len(),
            p == indices(picks@),
            forall|j: int| 0 <= j < picks@.len() ==> #[trigger] picks@[j] < v@.len(),
            forall|j: int| 0 <= j < order@.len() ==> #[trigger] order@[j] < picks@.len(),
            out@.len() == n,
            forall|j: int|
                0 <= j < n ==> (#[trigger] out@[j])@ == advisor_row(
                    v@[picks@[order@[j] as int] as int],
                ),
        decreases order.len() - n,
    {
        let d: &UnruledDir = &v[picks[order[n]]];
        out.push(
            AdvisorRow {
                path: d.path.as_str().to_owned(),
                provider: d.provider,
                mechanism: offload_mechanism(d.provider, d.maestral),
                bytes: d.bytes,
            },
        );
        n += 1;
    }
    assert(advisor_views(out@) =~= advisor_rows(v@)) by {
        assert forall|j: int| 0 <= j < out@.len() implies (#[trigger] out@[j])@ == advisor_row(
            v@[leaving_order(v@)[j]],
        ) by {
            assert(o[j] == order@[j] as int);
            assert(leaving_order(v@)[j] == p[o[j]]);
        }
    }
    out
}

/// The bytes of a list of rows.
pub open spec fn offload_total(v: Seq<AdvisorRowView>) -> nat
    decreases v.len(),
{
    if v.len() == 0 {
        0
    } else {
        offload_total(v.drop_last()) + v.last().bytes
    }
}

/// What can be reclaimed without deleting anything; none where the sum is out of range.
pub fn reclaimable_without_deleting(v: &Vec<AdvisorRow>) -> (r: Option<u128>)
    ensures
        match r {
            Some(t) => t == offload_total(advisor_views(v@)),
            None => offload_total(advisor_views(v@)) > u128::MAX,
        },
{
    let ghost w = advisor_views(v@);
    let mut total: u128 = 0;
    let mut i: usize = 0;
    assert(w.take(0) =~= Seq::empty());
    while i < v.len()
        invariant
            i <= v@.len(),
            w == advisor_views(v@),
            total == offload_total(w.take(i as int)),
        decreases v.len() - i,
    {
        assert(w.take(i + 1).drop_last() =~= w.take(i as int));
        assert(w.take(i + 1).last() == v@[i as int]@);
        match total.checked_add(v[i].bytes) {
            Some(t) => {
                total = t;
            },
            None => {
                proof {
                    lemma_total_grows(w, i + 1);
                }
                return None;
            },
        }
        i += 1;
    }
    assert(w.take(i as int) =~= w);
    Some(total)
}

proof fn lemma_total_grows(w: Seq<AdvisorRowView>, k: int)
    requires
        0 <= k <= w.len(),
    ensures
        offload_total(w.take(k)) <= offload_total(w),
    decreases w.len() - k,
{
    if k < w.len() {
        lemma_total_grows(w, k + 1);
        assert(w.take(k + 1).drop_last() =~= w.take(k));
    } else {
        assert(w.take(k) =~= w);
    }
}

/// Every row that the advisor shows is synced, on the disk and best offloaded.
pub proof fn advice_is_reclaimable(v: Seq<UnruledDir>, k: int)
    requires
        0 <= k < advisor_rows(v).len(),
    ensures
        0 <= leaving_order(v)[k] < v.len(),
        can_leave(v[leaving_order(v)[k]]),
        advisor_rows(v)[k] == advisor_row(v[leaving_order(v)[k]]),
        advisor_rows(v)[k].mechanism != OffloadMechanism::NotApplicable,
{
    let flags = leave_flags(v);
    lemma_marked(flags);
    let picks = marked(flags);
    let keys = leaving_keys(v, picks);
    lemma_stable_order(keys);
    let i = stable_order(keys)[k];
    assert(0 <= i < picks.len());
    assert(leaving_order(v)[k] == picks[i]);
    assert(flags[picks[i]]);
}

pub open spec fn hint_text(m: OffloadMechanism, path: Seq<char>) -> Seq<char> {
    match argv_of(m, path) {
        Some(argv) => "diskspace stow "@ + path + " --yes   (runs: "@ + joined(argv, " "@) + ")"@,
        None => "diskspace stow "@ + path + "   (Finder: Make online-only — advice only)"@,
    }
}

/// The next command for a row.
pub fn advisor_action_hint(r: &AdvisorRow) -> (h: String)
    ensures
        h@ == hint_text(r@.mechanism, r@.path),
{
    let mut out: String = "diskspace stow ".to_owned();
    out.append(r.path.as_str());
    match offload_argv(r.mechanism, r.path.as_str()) {
        Some(argv) => {
            out.append(" --yes   (runs: ");
            let command: String = join(&argv, " ");
            out.append(command.as_str());
            out.append(")");
        },
        None => {
            out.append("   (Finder: Make online-only — advice only)");
        },
    }
    out
}

} // verus!
