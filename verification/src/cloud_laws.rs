//! What holds of paths that the cloud keeps, and of what is made of unruled directories.

use crate::classify::{hint_of, step_for, ClassifyStepView, Strategy};
use crate::drill::lemma_falling;
use crate::order::{before, lemma_marked, lemma_stable_order, marked, stable_order};
use crate::paths::{expanded, joined_path, parts, under};
use crate::stow::{
    advisor_rows, argv_of, hint_text, leaving_order, mechanism_of, offload_total, provider_of,
    stow_step, AdvisorRowView, CloudProvider, CloudSight, OffloadMechanism, StowStepView,
    UnruledDir,
};
use crate::text::joined;
use vstd::prelude::*;

verus! {

/// A path is in iCloud exactly where it lies in its documents, with the file provider's Dropbox where
/// it lies in a folder there whose name begins so, and with the classic one where it lies in a marked
/// Dropbox folder; else it is not synced.
pub proof fn providers_by_place(path: Seq<char>, home: Seq<char>, marked_dropbox: bool)
    ensures
        ({
            let icloud = under(path, joined_path(home, "Library/Mobile Documents"@));
            let root = joined_path(home, "Library/CloudStorage"@);
            let provided = under(path, root) && parts(path).len() > parts(root).len()
                && "Dropbox"@.is_prefix_of(parts(path)[parts(root).len() as int]);
            let classic = marked_dropbox && under(path, joined_path(home, "Dropbox"@));
            let p = provider_of(path, home, marked_dropbox);
            &&& p == CloudProvider::ICloud <==> icloud
            &&& p == CloudProvider::DropboxFileProvider <==> !icloud && provided
            &&& p == CloudProvider::DropboxClassic <==> !icloud && !provided && classic
            &&& p == CloudProvider::NotCloud <==> !icloud && !provided && !classic
        }),
{
}

/// Only what iCloud keeps is evicted, and only what Maestral syncs is excluded; everything else is left
/// to the person.
pub proof fn only_safe_clients_offload(provider: CloudProvider, maestral: bool, path: Seq<char>)
    ensures
        ({
            let m = mechanism_of(provider, maestral);
            &&& argv_of(m, path) == Some(seq!["brctl"@, "evict"@, path]) <==> provider
                == CloudProvider::ICloud
            &&& argv_of(m, path) == Some(seq!["maestral"@, "excluded"@, "add"@, path]) <==> provider
                == CloudProvider::DropboxClassic && maestral
            &&& argv_of(m, path) is None <==> !(provider == CloudProvider::ICloud || (provider
                == CloudProvider::DropboxClassic && maestral))
            &&& m == OffloadMechanism::AdviseFinder <==> provider == CloudProvider::DropboxClassic
                && !maestral
            &&& m == OffloadMechanism::AdviseFragileEvict <==> provider
                == CloudProvider::DropboxFileProvider
            &&& m == OffloadMechanism::NotApplicable <==> provider == CloudProvider::NotCloud
        }),
{
    let (a, b) = (seq!["brctl"@, "evict"@, path], seq!["maestral"@, "excluded"@, "add"@, path]);
    assert(a.len() == 3 && b.len() == 4);
}

/// A path is offloaded exactly where that was agreed to, its bytes are on the disk and a client can do
/// it safely; the command is run on the path that was named.
pub proof fn offloaded_exactly_where_agreed(
    target: Option<Seq<char>>,
    yes: bool,
    home: Seq<char>,
    sight: Option<CloudSight>,
)
    ensures
        ({
            let s = stow_step(target, yes, home, sight);
            let able = sight is Some && sight->0.local && (sight->0.provider
                == CloudProvider::ICloud || (sight->0.provider == CloudProvider::DropboxClassic
                && sight->0.maestral));
            &&& s is Advisor <==> target is None
            &&& s is NotFound <==> target is Some && sight is None
            &&& s is AlreadyOffloaded <==> target is Some && sight is Some && sight->0.provider
                != CloudProvider::NotCloud && !sight->0.local
            &&& s is Offload <==> target is Some && able && yes
            &&& s is Suggest <==> target is Some && able && !yes
            &&& s is AdviseFinder <==> target is Some && sight is Some && sight->0.local
                && sight->0.provider == CloudProvider::DropboxClassic && !sight->0.maestral
            &&& s is AdviseFragileEvict <==> target is Some && sight is Some && sight->0.local
                && sight->0.provider == CloudProvider::DropboxFileProvider
            &&& s is NotApplicable <==> target is Some && sight is Some && sight->0.provider
                == CloudProvider::NotCloud
            &&& s matches StowStepView::Offload(path, argv) ==> path == expanded(target->0, home)
                && argv.last() == path && (argv == seq!["brctl"@, "evict"@, path] || argv
                == seq!["maestral"@, "excluded"@, "add"@, path])
        }),
{
    if let Some(raw) = target {
        let path = expanded(raw, home);
        assert(seq!["brctl"@, "evict"@, path].last() == path);
        assert(seq!["maestral"@, "excluded"@, "add"@, path].last() == path);
    }
}

/// The advisor lists every directory that is best offloaded, synced and on the disk, and no other, the
/// largest first, each with what its client can do.
pub proof fn advisor_lists_what_can_leave(v: Seq<UnruledDir>, i: int)
    ensures
        leaving_order(v).contains(i) <==> 0 <= i < v.len() && v[i].offload && v[i].local
            && v[i].provider != CloudProvider::NotCloud,
        advisor_rows(v).len() == leaving_order(v).len(),
        forall|k: int|
            0 <= k < advisor_rows(v).len() ==> {
                let (r, d) = (#[trigger] advisor_rows(v)[k], v[leaving_order(v)[k]]);
                r.path == d.path@ && r.provider == d.provider && r.bytes == d.bytes && r.mechanism
                    == mechanism_of(d.provider, d.maestral)
            },
        forall|a: int, b: int|
            0 <= a < b < leaving_order(v).len() ==> v[#[trigger] leaving_order(v)[a]].bytes
                >= v[#[trigger] leaving_order(v)[b]].bytes,
{
    let flags = crate::stow::leave_flags(v);
    let picks = marked(flags);
    let keys = crate::stow::leaving_keys(v, picks);
    let o = stable_order(keys);
    let order = leaving_order(v);
    lemma_marked(flags);
    lemma_stable_order(keys);
    if order.contains(i) {
        let k = order.index_of(i);
        assert(order[k] == picks[o[k]]);
        assert(flags[picks[o[k]]]);
    }
    if 0 <= i < v.len() && v[i].offload && v[i].local && v[i].provider != CloudProvider::NotCloud {
        assert(flags[i]);
        assert(picks.contains(i));
        let p = picks.index_of(i);
        assert(o.contains(p));
        let k = o.index_of(p);
        assert(order[k] == i);
    }
    assert forall|a: int, b: int| 0 <= a < b < order.len() implies v[#[trigger] order[a]].bytes
        >= v[#[trigger] order[b]].bytes by {
        assert(before(keys, o[a], o[b]));
        assert(order[a] == picks[o[a]] && order[b] == picks[o[b]]);
        lemma_falling(v[order[a]].bytes as nat, v[order[b]].bytes as nat);
    }
}

/// What could leave the disk adds up.
pub proof fn offloads_add_up(v: Seq<AdvisorRowView>, r: AdvisorRowView)
    ensures
        offload_total(Seq::empty()) == 0,
        offload_total(v.push(r)) == offload_total(v) + r.bytes,
{
    assert(v.push(r).drop_last() =~= v);
}

/// A classified path is acted on exactly where that was agreed to: a repository is packed, what can be
/// made again is moved aside, and nothing else is touched.
pub proof fn classified_paths_are_acted_on_by_strategy(
    target: Option<Seq<char>>,
    yes: bool,
    home: Seq<char>,
    strategy: Option<Strategy>,
)
    ensures
        ({
            let s = step_for(target, yes, home, strategy);
            let known = target is Some && strategy is Some;
            &&& s is Table <==> target is None
            &&& s is NotFound <==> target is Some && strategy is None
            &&& s is Suggest <==> known && !yes
            &&& s is Repack <==> known && yes && strategy == Some(Strategy::Repack)
            &&& s is Reclaim <==> known && yes && strategy == Some(Strategy::Reclaim)
            &&& s is OfferStow <==> known && yes && strategy == Some(Strategy::Offload)
            &&& s is Leave <==> known && yes && (strategy == Some(Strategy::Review) || strategy
                == Some(Strategy::Keep))
            &&& s matches ClassifyStepView::Reclaim(p) ==> p == expanded(target->0, home)
            &&& s matches ClassifyStepView::Repack(p) ==> p == expanded(target->0, home)
        }),
{
}

/// A hint promises to act only where acting keeps what is there: a pack that loses nothing, or a move
/// that can be undone.
pub proof fn hints_promise_no_loss(s: Strategy, path: Seq<char>)
    ensures
        s == Strategy::Repack ==> hint_of(s, path) == "diskspace classify "@ + path
            + " --yes   (runs git gc, loss-free)"@,
        s == Strategy::Reclaim ==> hint_of(s, path) == "diskspace classify "@ + path
            + " --yes   (moves it to the airlock, reversible)"@,
        s == Strategy::Offload ==> hint_of(s, path) == "recommended: diskspace stow "@ + path,
        s == Strategy::Review ==> hint_of(s, path) == "inspect first: diskspace explain "@ + path,
        s == Strategy::Keep ==> hint_of(s, path) == "keep — no action for "@ + path,
{
}

/// What is advised for a directory is what would be run on it: the command where a client can do it,
/// and else the way by hand.
pub proof fn advice_names_what_would_run(path: Seq<char>)
    ensures
        hint_text(OffloadMechanism::ICloudEvict, path) == "diskspace stow "@ + path
            + " --yes   (runs: "@ + ("brctl"@ + " "@ + "evict"@ + " "@ + path) + ")"@,
        hint_text(OffloadMechanism::MaestralExclude, path) == "diskspace stow "@ + path
            + " --yes   (runs: "@ + ("maestral"@ + " "@ + "excluded"@ + " "@ + "add"@ + " "@ + path)
            + ")"@,
        forall|m: OffloadMechanism|
            m != OffloadMechanism::ICloudEvict && m != OffloadMechanism::MaestralExclude
                ==> #[trigger] hint_text(m, path) == "diskspace stow "@ + path
                + "   (Finder: Make online-only — advice only)"@,
{
    reveal_with_fuel(joined, 5);
    let a = seq!["brctl"@, "evict"@, path];
    assert(a.drop_last() =~= seq!["brctl"@, "evict"@]);
    assert(a.drop_last().drop_last() =~= seq!["brctl"@]);
    let b = seq!["maestral"@, "excluded"@, "add"@, path];
    assert(b.drop_last() =~= seq!["maestral"@, "excluded"@, "add"@]);
    assert(b.drop_last().drop_last() =~= seq!["maestral"@, "excluded"@]);
    assert(b.drop_last().drop_last().drop_last() =~= seq!["maestral"@]);
}

/// What is suggested without consent is what would be run with it, and every step is about the path
/// that was named.
pub proof fn suggestions_are_what_would_run(
    raw: Seq<char>,
    yes: bool,
    home: Seq<char>,
    sight: Option<CloudSight>,
)
    ensures
        stow_step(Some(raw), false, home, sight) matches StowStepView::Suggest(p, argv)
            ==> stow_step(Some(raw), true, home, sight) == StowStepView::Offload(p, argv),
        match stow_step(Some(raw), yes, home, sight) {
            StowStepView::Advisor => false,
            StowStepView::NotFound(p) => p == expanded(raw, home),
            StowStepView::AlreadyOffloaded(p) => p == expanded(raw, home),
            StowStepView::Suggest(p, _) => p == expanded(raw, home),
            StowStepView::Offload(p, _) => p == expanded(raw, home),
            StowStepView::AdviseFinder(p) => p == expanded(raw, home),
            StowStepView::AdviseFragileEvict(p) => p == expanded(raw, home),
            StowStepView::NotApplicable(p) => p == expanded(raw, home),
        },
{
}

/// A classified path that is not there, or is left, is the one that was named.
pub proof fn classified_steps_name_their_path(
    raw: Seq<char>,
    yes: bool,
    home: Seq<char>,
    strategy: Option<Strategy>,
)
    ensures
        match step_for(Some(raw), yes, home, strategy) {
            ClassifyStepView::NotFound(p) => p == expanded(raw, home),
            ClassifyStepView::OfferStow(p) => p == expanded(raw, home),
            ClassifyStepView::Leave(p) => p == expanded(raw, home),
            _ => true,
        },
{
}

/// Providers and mechanisms have one name each.
pub proof fn clouds_by_name(p: CloudProvider, m: OffloadMechanism)
    ensures
        p == CloudProvider::ICloud ==> p.text() == "icloud"@,
        p == CloudProvider::DropboxClassic ==> p.text() == "dropbox-classic"@,
        p == CloudProvider::DropboxFileProvider ==> p.text() == "dropbox-file-provider"@,
        p == CloudProvider::NotCloud ==> p.text() == "none"@,
        m == OffloadMechanism::ICloudEvict ==> m.text() == "icloud-evict"@,
        m == OffloadMechanism::MaestralExclude ==> m.text() == "maestral-exclude"@,
        m == OffloadMechanism::AdviseFinder ==> m.text() == "advise-finder"@,
        m == OffloadMechanism::AdviseFragileEvict ==> m.text() == "advise-fragile-evict"@,
        m == OffloadMechanism::NotApplicable ==> m.text() == "not-applicable"@,
        m.actionable() <==> m == OffloadMechanism::ICloudEvict || m
            == OffloadMechanism::MaestralExclude,
{
}

} // verus!
