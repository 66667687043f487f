//! Executing a plan: step by step, within a grant's bounds, and no further than the goal.
//!
//! Execution is a machine. The caller removes paths and reads the disk as [`ExecuteAction`]
//! says, and reports back with an [`ExecuteEvent`].

use crate::doctor::{consequences_from_contract, Mode, Plan, PlanStep};
#[allow(unused_imports)]
use crate::doctor::{contract_consequences, plan_step_views, PlanStepView};
use crate::grant::{allows, Denial, Grant, GrantDecision};
#[allow(unused_imports)]
use crate::grant::ruling;
use crate::history::{ActionKind, Entry, MoveKind};
#[allow(unused_imports)]
use crate::history::{context_view, ReceiptView};
use crate::model::Consequences;
#[allow(unused_imports)]
use crate::model::ConsequencesView;
use crate::text::copy_option;
#[allow(unused_imports)]
use crate::text::opt_view;
use vstd::prelude::*;

verus! {

/// What became of a step.
#[derive(Debug)]
pub enum Item {
    /// The grant held it back.
    Denied { step: usize, reason: Denial },
    /// It was removed, with the command that brings it back, if one does.
    Acted { step: usize, undo_cmd: Option<String> },
}

pub ghost enum ItemView {
    Denied { step: int, reason: Denial },
    Acted { step: int, undo_cmd: Option<Seq<char>> },
}

impl View for Item {
    type V = ItemView;

    open spec fn view(&self) -> ItemView {
        match self {
            Item::Denied { step, reason } => ItemView::Denied {
                step: *step as int,
                reason: *reason,
            },
            Item::Acted { step, undo_cmd } => ItemView::Acted {
                step: *step as int,
                undo_cmd: opt_view(*undo_cmd),
            },
        }
    }
}

pub open spec fn item_views(v: Seq<Item>) -> Seq<ItemView> {
    v.map_values(|i: Item| i@)
}

#[derive(Debug, Clone, Copy, PartialEq, Eq, Structural)]
pub enum Phase {
    /// Waiting for the removal of the current step.
    Acting,
    /// Waiting for a reading of the free space.
    Reading,
    Finished,
}

/// What the caller saw.
#[derive(Debug)]
pub enum ExecuteEvent {
    /// The step was removed; the command that brings it back, if one does.
    Done(Option<String>),
    Failed,
    Free(Option<u64>),
}

pub ghost enum EventView {
    Done(Option<Seq<char>>),
    Failed,
    Free(Option<u64>),
}

impl View for ExecuteEvent {
    type V = EventView;

    open spec fn view(&self) -> EventView {
        match self {
            ExecuteEvent::Done(u) => EventView::Done(opt_view(*u)),
            ExecuteEvent::Failed => EventView::Failed,
            ExecuteEvent::Free(f) => EventView::Free(*f),
        }
    }
}

/// How far an execution has come.
#[derive(Debug)]
pub struct Execution {
    pub phase: Phase,
    /// The position of the current step.
    pub position: usize,
    /// The bytes of all steps that were removed.
    pub freed_bytes: u128,
    /// The bytes that the grant has allowed so far.
    pub grant_spent: u64,
    pub items: Vec<Item>,
}

#[verifier::ext_equal]
pub ghost struct ExecutionView {
    pub phase: Phase,
    pub position: int,
    pub freed_bytes: nat,
    pub grant_spent: u64,
    pub items: Seq<ItemView>,
}

impl View for Execution {
    type V = ExecutionView;

    open spec fn view(&self) -> ExecutionView {
        ExecutionView {
            phase: self.phase,
            position: self.position as int,
            freed_bytes: self.freed_bytes as nat,
            grant_spent: self.grant_spent,
            items: item_views(self.items@),
        }
    }
}

/// What is executed: the steps, the bounds and the goal.
pub ghost struct Job {
    pub steps: Seq<PlanStepView>,
    pub grant: Option<Grant>,
    pub home: Seq<char>,
    pub df_before: u64,
    pub need_bytes: u64,
}

pub open spec fn step_consequences(s: PlanStepView) -> Option<ConsequencesView> {
    match s.consequence_contract {
        Some(c) => Some(contract_consequences(c)),
        None => None,
    }
}

pub open spec fn step_ruling(job: Job, position: int, spent: u64) -> GrantDecision {
    match job.grant {
        Some(g) => {
            let s = job.steps[position];
            ruling(
                g,
                step_consequences(s),
                s.confidence,
                s.size_bytes,
                s.path,
                spent,
                job.home,
            )
        },
        None => GrantDecision::Allow,
    }
}

pub open spec fn grown(a: u64, b: u64) -> u64 {
    if a + b <= u64::MAX {
        (a + b) as u64
    } else {
        u64::MAX
    }
}

/// On from a position to the next step that the grant allows, or to the end. The steps that it
/// denies are recorded on the way.
pub open spec fn settle(job: Job, s: ExecutionView, position: int) -> ExecutionView
    decreases job.steps.len() - position,
{
    if position >= job.steps.len() {
        ExecutionView { phase: Phase::Finished, position, ..s }
    } else {
        match step_ruling(job, position, s.grant_spent) {
            GrantDecision::Deny(reason) => settle(
                job,
                ExecutionView {
                    items: s.items.push(ItemView::Denied { step: position, reason }),
                    ..s
                },
                position + 1,
            ),
            GrantDecision::Allow => ExecutionView {
                phase: Phase::Acting,
                position,
                grant_spent: if job.grant is Some {
                    grown(s.grant_spent, job.steps[position].size_bytes)
                } else {
                    s.grant_spent
                },
                ..s
            },
        }
    }
}

pub open spec fn execute_start(job: Job) -> ExecutionView {
    settle(
        job,
        ExecutionView {
            phase: Phase::Finished,
            position: 0,
            freed_bytes: 0,
            grant_spent: 0,
            items: Seq::empty(),
        },
        0,
    )
}

/// After a step: a deletion is followed by a reading, a move into the airlock by the next step.
pub open spec fn step_over(job: Job, s: ExecutionView) -> ExecutionView {
    if Mode::named(job.steps[s.position].mode) == Mode::Immediate {
        ExecutionView { phase: Phase::Reading, ..s }
    } else {
        settle(job, s, s.position + 1)
    }
}

/// The state after an event. An event that the phase does not wait for changes nothing.
pub open spec fn execute_step(job: Job, s: ExecutionView, e: EventView) -> ExecutionView {
    match (s.phase, e) {
        (Phase::Acting, EventView::Done(undo_cmd)) => step_over(
            job,
            ExecutionView {
                freed_bytes: s.freed_bytes + job.steps[s.position].size_bytes as nat,
                items: s.items.push(ItemView::Acted { step: s.position, undo_cmd }),
                ..s
            },
        ),
        (Phase::Acting, EventView::Failed) => step_over(job, s),
        (Phase::Reading, EventView::Free(reading)) => {
            let free = match reading {
                Some(f) => f,
                None => job.df_before,
            };
            if free >= job.need_bytes {
                ExecutionView { phase: Phase::Finished, ..s }
            } else {
                settle(job, s, s.position + 1)
            }
        },
        _ => s,
    }
}

/// What the caller is to do next.
#[derive(Debug, Clone, Copy, PartialEq, Eq, Structural)]
pub enum ExecuteAction {
    /// Remove the step at a position.
    Act(usize),
    ReadFree,
    Finish,
}

pub open spec fn job_of(
    plan: Plan,
    grant: Option<&Grant>,
    home: Seq<char>,
    df_before: u64,
    need_bytes: u64,
) -> Job {
    Job {
        steps: plan_step_views(plan.steps@),
        grant: match grant {
            Some(g) => Some(*g),
            None => None,
        },
        home,
        df_before,
        need_bytes,
    }
}

impl Execution {
    /// A position stands for a step, unless all is done, and the bytes freed are those of steps
    /// that were passed.
    pub open spec fn wf(self, n: nat) -> bool {
        &&& self.position <= n
        &&& self.phase != Phase::Finished ==> self.position < n
        &&& self.freed_bytes <= (self.position + if self.phase == Phase::Reading {
            1int
        } else {
            0int
        }) * 0xffff_ffff_ffff_ffff || self.phase == Phase::Finished
    }

    pub open spec fn action(self) -> ExecuteAction {
        match self.phase {
            Phase::Acting => ExecuteAction::Act(self.position),
            Phase::Reading => ExecuteAction::ReadFree,
            Phase::Finished => ExecuteAction::Finish,
        }
    }

    /// What the caller is to do next.
    pub fn next_action(&self) -> (r: ExecuteAction)
        ensures
            r == self.action(),
    {
        match self.phase {
            Phase::Acting => ExecuteAction::Act(self.position),
            Phase::Reading => ExecuteAction::ReadFree,
            Phase::Finished => ExecuteAction::Finish,
        }
    }

    /// Goes on from a position.
    fn settle_from(
        &mut self,
        plan: &Plan,
        grant: Option<&Grant>,
        home: &str,
        from: usize,
        df_before: u64,
        need_bytes: u64,
    )
        requires
            from <= plan.steps@.len(),
            old(self).freed_bytes <= from * 0xffff_ffff_ffff_ffff,
        ensures
            final(self).wf(plan.steps@.len()),
            final(self)@ == settle(
                job_of(*plan, grant, home@, df_before, need_bytes),
                old(self)@,
                from as int,
            ),
    {
        let ghost job = job_of(*plan, grant, home@, df_before, need_bytes);
        let ghost goal = settle(job, self@, from as int);
        let ghost freed = self.freed_bytes;
        let mut i: usize = from;
        while i < plan.steps.len()
            invariant
                from <= i <= plan.steps@.len(),
                job == job_of(*plan, grant, home@, df_before, need_bytes),
                self.freed_bytes == freed,
                freed <= from * 0xffff_ffff_ffff_ffff,
                goal == settle(job, old(self)@, from as int),
                settle(job, self@, i as int) == goal,
            decreases plan.steps.len() - i,
        {
            let step: &PlanStep = &plan.steps[i];
            assert(job.steps[i as int] == step@);
            assert(from * 0xffff_ffff_ffff_ffff <= i * 0xffff_ffff_ffff_ffff) by (nonlinear_arith)
                requires
                    from <= i,
            ;
            if let Some(g) = grant {
                let cons: Option<Consequences> = match &step.consequence_contract {
                    Some(c) => Some(consequences_from_contract(c)),
                    None => None,
                };
                let shown: Option<&Consequences> = match &cons {
                    Some(c) => Some(c),
                    None => None,
                };
                let ruled: GrantDecision = allows(
                    g,
                    shown,
                    step.confidence,
                    step.size_bytes,
                    step.path.as_str(),
                    self.grant_spent,
                    home,
                );
                assert(ruled == step_ruling(job, i as int, self.grant_spent));
                if let GrantDecision::Deny(reason) = ruled {
                    let ghost before = self@;
                    self.items.push(Item::Denied { step: i, reason });
                    assert(item_views(self.items@) =~= before.items.push(
                        ItemView::Denied { step: i as int, reason },
                    ));
                    i += 1;
                    continue ;
                }
                if self.grant_spent <= u64::MAX - step.size_bytes {
                    self.grant_spent = self.grant_spent + step.size_bytes;
                } else {
                    self.grant_spent = u64::MAX;
                }
            }
            self.phase = Phase::Acting;
            self.position = i;
            return ;
        }
        self.phase = Phase::Finished;
        self.position = i;
    }
}

/// Starts executing a plan.
pub fn execute_begin(
    plan: &Plan,
    grant: Option<&Grant>,
    home: &str,
    df_before: u64,
    need_bytes: u64,
) -> (r: Execution)
    ensures
        r.wf(plan.steps@.len()),
        r@ == execute_start(job_of(*plan, grant, home@, df_before, need_bytes)),
{
    let mut run: Execution = Execution {
        phase: Phase::Finished,
        position: 0,
        freed_bytes: 0,
        grant_spent: 0,
        items: Vec::new(),
    };
    assert(item_views(run.items@) =~= Seq::<ItemView>::empty());
    run.settle_from(plan, grant, home, 0, df_before, need_bytes);
    run
}

/// Takes an event in.
pub fn execute_plan(
    run: &mut Execution,
    event: ExecuteEvent,
    plan: &Plan,
    grant: Option<&Grant>,
    home: &str,
    df_before: u64,
    need_bytes: u64,
)
    requires
        old(run).wf(plan.steps@.len()),
    ensures
        final(run).wf(plan.steps@.len()),
        final(run)@ == execute_step(
            job_of(*plan, grant, home@, df_before, need_bytes),
            old(run)@,
            event@,
        ),
{
    let ghost job = job_of(*plan, grant, home@, df_before, need_bytes);
    let ghost before = run@;
    let at: usize = run.position;
    let n: usize = plan.steps.len();
    assert(run.phase != Phase::Finished ==> at < n);
    match (run.phase, event) {
        (Phase::Acting, ExecuteEvent::Done(undo_cmd)) => {
            let step: &PlanStep = &plan.steps[at];
            proof {
                assert(job.steps[at as int] == step@);
                assert(at * 0xffff_ffff_ffff_ffff <= 0xffff_ffff_ffff_ffff * 0xffff_ffff_ffff_ffff)
                    by (nonlinear_arith)
                    requires
                        at <= 0xffff_ffff_ffff_ffff,
                ;
                assert((at + 1) * 0xffff_ffff_ffff_ffff == at * 0xffff_ffff_ffff_ffff
                    + 0xffff_ffff_ffff_ffff) by (nonlinear_arith);
            }
            run.freed_bytes = run.freed_bytes + step.size_bytes as u128;
            let ghost undo = opt_view(undo_cmd);
            run.items.push(Item::Acted { step: at, undo_cmd });
            assert(item_views(run.items@) =~= before.items.push(
                ItemView::Acted { step: at as int, undo_cmd: undo },
            ));
            if Mode::from_str(step.mode.as_str()) == Mode::Immediate {
                run.phase = Phase::Reading;
            } else {
                run.settle_from(plan, grant, home, at + 1, df_before, need_bytes);
            }
        },
        (Phase::Acting, ExecuteEvent::Failed) => {
            let step: &PlanStep = &plan.steps[at];
            proof {
                assert(job.steps[at as int] == step@);
                assert((at + 1) * 0xffff_ffff_ffff_ffff == at * 0xffff_ffff_ffff_ffff
                    + 0xffff_ffff_ffff_ffff) by (nonlinear_arith);
            }
            if Mode::from_str(step.mode.as_str()) == Mode::Immediate {
                run.phase = Phase::Reading;
            } else {
                run.settle_from(plan, grant, home, at + 1, df_before, need_bytes);
            }
        },
        (Phase::Reading, ExecuteEvent::Free(reading)) => {
            let free: u64 = match reading {
                Some(f) => f,
                None => df_before,
            };
            if free >= need_bytes {
                run.phase = Phase::Finished;
            } else {
                run.settle_from(plan, grant, home, at + 1, df_before, need_bytes);
            }
        },
        _ => {},
    }
}

/// What an execution achieved.
#[derive(Debug, Clone, Copy, PartialEq, Eq, Structural)]
pub struct ExecuteOutcome {
    pub df_before: u64,
    pub df_after: u64,
    /// What the disk confirms.
    pub actually_freed: u64,
    /// What the steps add up to, with what is only staged.
    pub freed_bytes: u128,
}

/// The result of an execution by the last reading; without one the space is as it was.
pub fn execute_outcome(run: &Execution, df_before: u64, reading: Option<u64>) -> (r: ExecuteOutcome)
    ensures
        r.df_before == df_before,
        r.df_after == (match reading {
            Some(f) => f,
            None => df_before,
        }),
        r.actually_freed == (if r.df_after >= df_before {
            r.df_after - df_before
        } else {
            0
        }),
        r.freed_bytes == run.freed_bytes,
{
    let df_after: u64 = match reading {
        Some(f) => f,
        None => df_before,
    };
    let actually_freed: u64 = if df_after >= df_before {
        df_after - df_before
    } else {
        0
    };
    ExecuteOutcome { df_before, df_after, actually_freed, freed_bytes: run.freed_bytes }
}

impl ExecuteOutcome {
    /// The bytes that were moved aside without being freed.
    pub open spec fn staged_bytes(self) -> int {
        if self.freed_bytes >= self.actually_freed {
            self.freed_bytes - self.actually_freed
        } else {
            0
        }
    }

    pub fn staged(&self) -> (r: u128)
        ensures
            r == self.staged_bytes(),
    {
        let freed: u128 = self.actually_freed as u128;
        if self.freed_bytes >= freed {
            self.freed_bytes - freed
        } else {
            0
        }
    }
}

pub open spec fn move_context(kind: Option<MoveKind>) -> Seq<(Seq<char>, Seq<char>)> {
    match kind {
        Some(k) => seq![("move_kind"@, k.text())],
        None => Seq::empty(),
    }
}

pub open spec fn doctor_receipt(
    s: PlanStepView,
    df_before: u64,
    undo_cmd: Option<Seq<char>>,
    kind: Option<MoveKind>,
    ts: i64,
) -> ReceiptView {
    ReceiptView {
        ts,
        command: ActionKind::Doctor,
        candidate_id: Some(s.candidate_id),
        rule_id: Some(s.rule_id),
        path: s.path,
        size_bytes: s.size_bytes,
        df_before: Some(df_before),
        df_after: None,
        actually_freed: None,
        reversible: Mode::named(s.mode) == Mode::Airlock,
        undo_cmd,
        rule_confidence: Some(s.confidence),
        context: move_context(kind),
    }
}

/// The receipt of an executed step.
pub fn step_receipt(
    step: &PlanStep,
    df_before: u64,
    undo_cmd: &Option<String>,
    kind: Option<MoveKind>,
    ts: i64,
) -> (r: Entry)
    ensures
        r@ == doctor_receipt(step@, df_before, opt_view(*undo_cmd), kind, ts),
{
    let mut context: Vec<(String, String)> = Vec::new();
    if let Some(k) = kind {
        context.push(("move_kind".to_owned(), k.as_str().to_owned()));
    }
    assert(context_view(context@) =~= move_context(kind));
    Entry {
        ts,
        command: ActionKind::Doctor,
        candidate_id: Some(step.candidate_id.as_str().to_owned()),
        rule_id: Some(step.rule_id.as_str().to_owned()),
        path: step.path.as_str().to_owned(),
        size_bytes: step.size_bytes,
        df_before: Some(df_before),
        df_after: None,
        actually_freed: None,
        reversible: Mode::from_str(step.mode.as_str()) == Mode::Airlock,
        undo_cmd: copy_option(undo_cmd),
        rule_confidence: Some(step.confidence),
        context,
    }
}

// ---------------------------------------------------------------------------
// What holds of every execution
// ---------------------------------------------------------------------------
/// The state after a list of events.
pub open spec fn execute_after(job: Job, events: Seq<EventView>) -> ExecutionView
    decreases events.len(),
{
    if events.len() == 0 {
        execute_start(job)
    } else {
        execute_step(job, execute_after(job, events.drop_last()), events.last())
    }
}

/// The bytes of the steps that were removed.
pub open spec fn acted_bytes(job: Job, items: Seq<ItemView>) -> nat
    decreases items.len(),
{
    if items.len() == 0 {
        0
    } else {
        acted_bytes(job, items.drop_last()) + match items.last() {
            ItemView::Acted { step, .. } => job.steps[step].size_bytes as nat,
            ItemView::Denied { .. } => 0,
        }
    }
}

pub open spec fn item_step(i: ItemView) -> int {
    match i {
        ItemView::Acted { step, .. } => step,
        ItemView::Denied { step, .. } => step,
    }
}

/// The items name steps in order, none twice, all of them before `bound`.
pub open spec fn in_order(items: Seq<ItemView>, bound: int) -> bool {
    &&& forall|i: int, j: int|
        0 <= i < j < items.len() ==> item_step(#[trigger] items[i]) < item_step(
            #[trigger] items[j],
        )
    &&& forall|i: int| 0 <= i < items.len() ==> 0 <= item_step(#[trigger] items[i]) < bound
}

pub open spec fn consistent(job: Job, s: ExecutionView) -> bool {
    &&& 0 <= s.position <= job.steps.len()
    &&& s.phase != Phase::Finished ==> s.position < job.steps.len()
    &&& s.freed_bytes == acted_bytes(job, s.items)
    &&& in_order(
        s.items,
        if s.phase == Phase::Acting {
            s.position
        } else {
            s.position + 1
        },
    )
    &&& job.grant is Some ==> s.grant_spent <= job.grant->0.max_bytes && acted_bytes(job, s.items)
        + (if s.phase == Phase::Acting {
        job.steps[s.position].size_bytes as nat
    } else {
        0
    }) <= s.grant_spent
}

proof fn lemma_settle(job: Job, s: ExecutionView, position: int)
    requires
        0 <= position <= job.steps.len(),
        s.freed_bytes == acted_bytes(job, s.items),
        in_order(s.items, position),
        job.grant is Some ==> s.grant_spent <= job.grant->0.max_bytes && acted_bytes(job, s.items)
            <= s.grant_spent,
    ensures
        consistent(job, settle(job, s, position)),
    decreases job.steps.len() - position,
{
    if position < job.steps.len() {
        match step_ruling(job, position, s.grant_spent) {
            GrantDecision::Deny(reason) => {
                let item = ItemView::Denied { step: position, reason };
                let items = s.items.push(item);
                assert(items.drop_last() =~= s.items);
                assert(in_order(items, position + 1)) by {
                    assert forall|i: int, j: int| 0 <= i < j < items.len() implies item_step(
                        #[trigger] items[i],
                    ) < item_step(#[trigger] items[j]) by {
                        assert(items[i] == s.items[i]);
                        if j < s.items.len() {
                            assert(items[j] == s.items[j]);
                        }
                    }
                    assert forall|i: int| 0 <= i < items.len() implies 0 <= item_step(
                        #[trigger] items[i],
                    ) < position + 1 by {
                        if i < s.items.len() {
                            assert(items[i] == s.items[i]);
                        }
                    }
                }
                lemma_settle(job, ExecutionView { items, ..s }, position + 1);
            },
            GrantDecision::Allow => {},
        }
    }
}

proof fn lemma_execute_step(job: Job, s: ExecutionView, e: EventView)
    requires
        consistent(job, s),
    ensures
        consistent(job, execute_step(job, s, e)),
{
    match (s.phase, e) {
        (Phase::Acting, EventView::Done(undo_cmd)) => {
            let item = ItemView::Acted { step: s.position, undo_cmd };
            let items = s.items.push(item);
            assert(items.drop_last() =~= s.items);
            assert(in_order(items, s.position + 1)) by {
                assert forall|i: int, j: int| 0 <= i < j < items.len() implies item_step(
                    #[trigger] items[i],
                ) < item_step(#[trigger] items[j]) by {
                    assert(items[i] == s.items[i]);
                    if j < s.items.len() {
                        assert(items[j] == s.items[j]);
                    }
                }
                assert forall|i: int| 0 <= i < items.len() implies 0 <= item_step(
                    #[trigger] items[i],
                ) < s.position + 1 by {
                    if i < s.items.len() {
                        assert(items[i] == s.items[i]);
                    }
                }
            }
            let r = ExecutionView {
                freed_bytes: s.freed_bytes + job.steps[s.position].size_bytes as nat,
                items,
                ..s
            };
            if Mode::named(job.steps[s.position].mode) != Mode::Immediate {
                lemma_settle(job, r, s.position + 1);
            }
        },
        (Phase::Acting, EventView::Failed) => {
            assert(in_order(s.items, s.position + 1));
            if Mode::named(job.steps[s.position].mode) != Mode::Immediate {
                lemma_settle(job, s, s.position + 1);
            }
        },
        (Phase::Reading, EventView::Free(reading)) => {
            lemma_settle(job, s, s.position + 1);
        },
        _ => {},
    }
}

proof fn lemma_execution(job: Job, events: Seq<EventView>)
    ensures
        consistent(job, execute_after(job, events)),
    decreases events.len(),
{
    if events.len() == 0 {
        lemma_settle(
            job,
            ExecutionView {
                phase: Phase::Finished,
                position: 0,
                freed_bytes: 0,
                grant_spent: 0,
                items: Seq::empty(),
            },
            0,
        );
    } else {
        lemma_execution(job, events.drop_last());
        lemma_execute_step(job, execute_after(job, events.drop_last()), events.last());
    }
}

/// All removals of an execution together stay within the byte limit of its grant.
pub proof fn execution_stays_within_the_grant(job: Job, events: Seq<EventView>)
    requires
        job.grant is Some,
    ensures
        acted_bytes(job, execute_after(job, events).items) <= job.grant->0.max_bytes,
{
    lemma_execution(job, events);
}

/// The bytes reported are those of the steps that were removed.
pub proof fn freed_bytes_match_the_steps(job: Job, events: Seq<EventView>)
    ensures
        execute_after(job, events).freed_bytes == acted_bytes(
            job,
            execute_after(job, events).items,
        ),
{
    lemma_execution(job, events);
}

/// Steps are handled in the order of the plan, and none twice.
pub proof fn steps_are_handled_in_order(job: Job, events: Seq<EventView>, i: int, j: int)
    requires
        0 <= i < j < execute_after(job, events).items.len(),
    ensures
        item_step(execute_after(job, events).items[i]) < item_step(
            execute_after(job, events).items[j],
        ),
{
    lemma_execution(job, events);
}

/// A step comes up for removal only where the grant, if there is one, allows it.
pub proof fn denied_steps_are_not_acted_on(job: Job, s: ExecutionView, position: int)
    requires
        0 <= position,
        settle(job, s, position).phase == Phase::Acting,
    ensures
        position <= settle(job, s, position).position < job.steps.len(),
        step_ruling(job, settle(job, s, position).position, s.grant_spent) == GrantDecision::Allow,
    decreases job.steps.len() - position,
{
    if position < job.steps.len() {
        match step_ruling(job, position, s.grant_spent) {
            GrantDecision::Deny(reason) => {
                denied_steps_are_not_acted_on(
                    job,
                    ExecutionView {
                        items: s.items.push(ItemView::Denied { step: position, reason }),
                        ..s
                    },
                    position + 1,
                );
            },
            GrantDecision::Allow => {},
        }
    }
}

/// A reading that meets the need ends the execution.
pub proof fn goal_ends_the_execution(job: Job, s: ExecutionView, free: u64)
    requires
        s.phase == Phase::Reading,
        free >= job.need_bytes,
    ensures
        execute_step(job, s, EventView::Free(Some(free))).phase == Phase::Finished,
        execute_step(job, s, EventView::Free(Some(free))).items == s.items,
{
}

} // verus!
