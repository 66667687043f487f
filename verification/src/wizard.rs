//! The first-run questions: what kind of work the profile should count as active.

use crate::model::{Context, Domain};
use crate::numbers::read_i64;
#[allow(unused_imports)]
use crate::numbers::whole_number;
use crate::text::{join, pieces_between, trim};
#[allow(unused_imports)]
use crate::text::{joined, split_on, trimmed, views};
use vstd::prelude::*;

verus! {

/// A kind of work to choose.
#[derive(Debug, Clone, Copy)]
pub struct DomainChoice {
    pub key: &'static str,
    pub label: &'static str,
    pub hint: &'static str,
}

pub ghost struct ChoiceView {
    pub key: Seq<char>,
    pub label: Seq<char>,
    pub hint: Seq<char>,
}

impl View for DomainChoice {
    type V = ChoiceView;

    open spec fn view(&self) -> ChoiceView {
        ChoiceView { key: self.key@, label: self.label@, hint: self.hint@ }
    }
}

pub open spec fn choice(key: &str, label: &str, hint: &str) -> ChoiceView {
    ChoiceView { key: key@, label: label@, hint: hint@ }
}

/// The kinds of work, in the order in which they are numbered.
pub open spec fn choices() -> Seq<ChoiceView> {
    seq![
        choice("web_development", "Web development", "React, Node, npm, .next, webpack"),
        choice("ios_development", "iOS / macOS", "Xcode, Swift, DerivedData, simulators"),
        choice("android_development", "Android", "Android Studio, AVDs, Gradle cache"),
        choice("data_science", "Python / data science", "pip, venv, Jupyter, conda, .venv"),
        choice("rust_development", "Rust / systems", "cargo, target/, crates registry"),
        choice("go_development", "Go", "go/pkg, module cache, build cache"),
        choice("docker", "Docker / containers", "images, volumes, overlay storage"),
        choice("video_editing", "Video editing", "Premiere, DaVinci Resolve, render caches"),
        choice("music_production", "Music production", "Logic Pro, Ableton, audio plugins"),
        choice("game_development", "Game development", "Unity Library, Unreal Intermediate"),
    ]
}

pub open spec fn choice_views(v: Seq<DomainChoice>) -> Seq<ChoiceView> {
    v.map_values(|c: DomainChoice| c@)
}

fn add_choice(
    v: &mut Vec<DomainChoice>,
    key: &'static str,
    label: &'static str,
    hint: &'static str,
)
    ensures
        choice_views(final(v)@) == choice_views(old(v)@).push(choice(key, label, hint)),
        final(v)@.len() == old(v)@.len() + 1,
{
    v.push(DomainChoice { key, label, hint });
    assert(choice_views(v@) =~= choice_views(old(v)@).push(choice(key, label, hint)));
}

pub fn domain_choices() -> (r: Vec<DomainChoice>)
    ensures
        choice_views(r@) == choices(),
        r@.len() == 10,
{
    let mut v: Vec<DomainChoice> = Vec::new();
    add_choice(&mut v, "web_development", "Web development", "React, Node, npm, .next, webpack");
    add_choice(&mut v, "ios_development", "iOS / macOS", "Xcode, Swift, DerivedData, simulators");
    add_choice(&mut v, "android_development", "Android", "Android Studio, AVDs, Gradle cache");
    add_choice(
        &mut v,
        "data_science",
        "Python / data science",
        "pip, venv, Jupyter, conda, .venv",
    );
    add_choice(&mut v, "rust_development", "Rust / systems", "cargo, target/, crates registry");
    add_choice(&mut v, "go_development", "Go", "go/pkg, module cache, build cache");
    add_choice(&mut v, "docker", "Docker / containers", "images, volumes, overlay storage");
    add_choice(
        &mut v,
        "video_editing",
        "Video editing",
        "Premiere, DaVinci Resolve, render caches",
    );
    add_choice(
        &mut v,
        "music_production",
        "Music production",
        "Logic Pro, Ableton, audio plugins",
    );
    add_choice(
        &mut v,
        "game_development",
        "Game development",
        "Unity Library, Unreal Intermediate",
    );
    assert(choice_views(v@) =~= choices());
    v
}

/// Whether the questions are asked: by a person at a terminal who has no profile yet.
pub fn should_run(ctx: &Context, attended: bool, profile_exists: bool) -> (r: bool)
    ensures
        r == (ctx.interactive() && attended && !profile_exists),
{
    !ctx.json && !ctx.yes && attended && !profile_exists
}

/// The choice that a piece of the answer names, counted from zero.
pub open spec fn named_choice(piece: Seq<char>) -> Option<int> {
    match whole_number(trimmed(piece)) {
        Some(n) => if 1 <= n <= 10 {
            Some(n - 1)
        } else {
            None
        },
        None => None,
    }
}

/// The choices that some pieces name, in their order; what names none is passed over.
pub open spec fn named_choices(pieces: Seq<Seq<char>>) -> Seq<int>
    decreases pieces.len(),
{
    if pieces.len() == 0 {
        Seq::empty()
    } else {
        let rest = named_choices(pieces.drop_last());
        match named_choice(pieces.last()) {
            Some(n) => rest.push(n),
            None => rest,
        }
    }
}

pub open spec fn selection(line: Seq<char>) -> Seq<int> {
    named_choices(split_on(trimmed(line), ','))
}

pub open spec fn positions(v: Seq<usize>) -> Seq<int> {
    v.map_values(|i: usize| i as int)
}

/// Reads the answer: numbers from one, with commas between them.
pub fn parse_selection(line: &str) -> (r: Vec<usize>)
    ensures
        positions(r@) == selection(line@),
        forall|k: int| 0 <= k < r@.len() ==> #[trigger] r@[k] < 10,
{
    let t: String = trim(line);
    let pieces: Vec<String> = pieces_between(t.as_str(), ',');
    let ghost w = views(pieces@);
    let mut out: Vec<usize> = Vec::new();
    let mut i: usize = 0;
    assert(w.take(0) =~= Seq::empty());
    assert(positions(out@) =~= Seq::empty());
    while i < pieces.len()
        invariant
            i <= pieces@.len(),
            w == views(pieces@),
            positions(out@) == named_choices(w.take(i as int)),
            forall|k: int| 0 <= k < out@.len() ==> #[trigger] out@[k] < 10,
        decreases pieces.len() - i,
    {
        assert(w.take(i + 1).drop_last() =~= w.take(i as int));
        assert(w.take(i + 1).last() == pieces@[i as int]@);
        let p: String = trim(pieces[i].as_str());
        let ghost before = positions(out@);
        match read_i64(p.as_str()) {
            Some(n) => if 1 <= n && n <= 10 {
                out.push((n - 1) as usize);
                assert(positions(out@) =~= before.push(n - 1));
            },
            None => {},
        }
        i += 1;
    }
    assert(w.take(i as int) =~= w);
    out
}

/// The fields of work of a new profile: those that were chosen are active.
pub open spec fn chosen_domains(selected: Seq<int>) -> Seq<(Seq<char>, bool)> {
    Seq::new(choices().len(), |i: int| (choices()[i].key, selected.contains(i)))
}

fn has_position(v: &Vec<usize>, n: usize) -> (r: bool)
    ensures
        r == positions(v@).contains(n as int),
{
    let mut i: usize = 0;
    while i < v.len()
        invariant
            i <= v@.len(),
            forall|j: int| 0 <= j < i ==> #[trigger] v@[j] != n,
        decreases v.len() - i,
    {
        if v[i] == n {
            assert(positions(v@)[i as int] == n);
            return true;
        }
        i += 1;
    }
    assert forall|j: int| 0 <= j < positions(v@).len() implies positions(v@)[j] != n as int by {
        assert(v@[j] != n);
    }
    false
}

pub fn domains_from(selected: &Vec<usize>) -> (r: Vec<Domain>)
    ensures
        r@.map_values(|d: Domain| (d.name@, d.active)) == chosen_domains(positions(selected@)),
{
    let list: Vec<DomainChoice> = domain_choices();
    let mut out: Vec<Domain> = Vec::new();
    let mut i: usize = 0;
    while i < list.len()
        invariant
            i <= list@.len(),
            choice_views(list@) == choices(),
            out@.len() == i,
            forall|j: int|
                0 <= j < i ==> (#[trigger] out@[j]).name@ == choices()[j].key && out@[j].active
                    == positions(selected@).contains(j),
        decreases list.len() - i,
    {
        assert(choices()[i as int] == list@[i as int]@);
        out.push(Domain { name: list[i].key.to_owned(), active: has_position(selected, i) });
        i += 1;
    }
    assert(choices().len() == list@.len());
    assert(out@.map_values(|d: Domain| (d.name@, d.active)) =~= chosen_domains(
        positions(selected@),
    ));
    out
}

pub open spec fn labels_at(selected: Seq<int>) -> Seq<Seq<char>> {
    selected.map_values(|i: int| choices()[i].label)
}

/// The labels of what was chosen, with commas between them.
pub fn active_labels(selected: &Vec<usize>) -> (r: String)
    requires
        forall|k: int| 0 <= k < selected@.len() ==> #[trigger] selected@[k] < 10,
    ensures
        r@ == joined(labels_at(positions(selected@)), ", "@),
{
    let list: Vec<DomainChoice> = domain_choices();
    let mut out: Vec<String> = Vec::new();
    let mut i: usize = 0;
    while i < selected.len()
        invariant
            i <= selected@.len(),
            list@.len() == 10,
            choice_views(list@) == choices(),
            forall|k: int| 0 <= k < selected@.len() ==> #[trigger] selected@[k] < 10,
            out@.len() == i,
            forall|j: int|
                0 <= j < i ==> (#[trigger] out@[j])@ == choices()[selected@[j] as int].label,
        decreases selected.len() - i,
    {
        assert(choices()[selected@[i as int] as int] == list@[selected@[i as int] as int]@);
        out.push(list[selected[i]].label.to_owned());
        i += 1;
    }
    assert(views(out@) =~= labels_at(positions(selected@)));
    join(&out, ", ")
}

/// A field of work is active in a new profile just where it was chosen; an empty answer leaves
/// every one inactive.
pub proof fn only_chosen_work_is_active(selected: Seq<int>, i: int)
    requires
        0 <= i < choices().len(),
    ensures
        chosen_domains(selected)[i].1 <==> selected.contains(i),
        chosen_domains(selected)[i].0 == choices()[i].key,
{
}

} // verus!
