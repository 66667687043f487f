//! Running a command that may run out of disk space: what counts as out of space, and what
//! follows from each outcome. Space is freed at most once and the command is run again at most
//! once.

use crate::doctor::{choose_mode, parse_size, Mode};
#[allow(unused_imports)]
use crate::doctor::{mode_under_pressure, size_in};
use crate::text::{contains, copy_option, to_lower};
#[allow(unused_imports)]
use crate::text::{lowered, occurs, opt_str_view, opt_view, trimmed, views};
use vstd::prelude::*;

verus! {

/// What is made free where no size was asked for.
pub const DEFAULT_NEED: &'static str = "5G";

/// The exit code that stands for `ENOSPC`.
pub const ENOSPC_EXIT_CODE: i32 = 28;

// ---------------------------------------------------------------------------
// The command line
// ---------------------------------------------------------------------------
/// The error of `shell_words::split`. It says nothing but that a quote is not closed.
#[verifier::external_type_specification]
#[verifier::external_body]
pub struct ExParseError(shell_words::ParseError);

/// The words that `shell_words::split` finds in a command line; none where it reports an error.
pub uninterp spec fn shell_tokens(s: Seq<char>) -> Option<Seq<Seq<char>>>;

/// The text holds neither a single nor a double quote.
pub open spec fn has_no_quote(s: Seq<char>) -> bool {
    forall|i: int| 0 <= i < s.len() ==> #[trigger] s[i] != '\'' && s[i] != '"'
}

/// The text holds nothing that the shell's quoting rules treat specially but blanks: no quote,
/// backslash or comment sign.
pub open spec fn is_plain_line(s: Seq<char>) -> bool {
    has_no_quote(s) && forall|i: int|
        0 <= i < s.len() ==> #[trigger] s[i] != '\\' && s[i] != '#'
}

pub open spec fn is_blank(c: char) -> bool {
    c == ' ' || c == '\t' || c == '\n'
}

/// The runs of a text between its blanks.
pub open spec fn blank_runs(s: Seq<char>) -> Seq<Seq<char>>
    decreases s.len(),
{
    if s.len() == 0 {
        Seq::empty()
    } else {
        let runs = blank_runs(s.drop_last());
        if is_blank(s.last()) {
            runs
        } else if s.len() == 1 || is_blank(s[s.len() - 2]) {
            runs.push(seq![s.last()])
        } else {
            runs.drop_last().push(runs.last().push(s.last()))
        }
    }
}

/// `shell_words::split` cuts a command line into words by the quoting rules of the shell. Where
/// nothing is quoted, escaped or commented out, the words are the runs between blanks; beyond
/// that they are only named. It fails on an open quote alone, so never where there is no quote.
pub assume_specification[ shell_words::split ](s: &str) -> (r: Result<
    Vec<String>,
    shell_words::ParseError,
>)
    ensures
        match r {
            Ok(words) => shell_tokens(s@) == Some(views(words@)),
            Err(_) => shell_tokens(s@) is None,
        },
        has_no_quote(s@) ==> r is Ok,
        is_plain_line(s@) ==> r is Ok && views(r->Ok_0@) == blank_runs(s@),
;

pub open spec fn parse_complaint(exec: Seq<char>) -> Seq<char> {
    "could not parse --exec '"@ + exec + "': missing closing quote"@
}

/// The program and the arguments of a command line. No shell ever sees it.
pub fn exec_argv(exec: &str) -> (r: Result<Vec<String>, String>)
    ensures
        match r {
            Ok(argv) => shell_tokens(exec@) == Some(views(argv@)),
            Err(e) => shell_tokens(exec@) is None && e@ == parse_complaint(exec@),
        },
        has_no_quote(exec@) ==> r is Ok,
        is_plain_line(exec@) ==> r is Ok && views(r->Ok_0@) == blank_runs(exec@),
{
    match shell_words::split(exec) {
        Ok(argv) => Ok(argv),
        Err(_) => {
            let mut e: String = "could not parse --exec '".to_owned();
            e.append(exec);
            e.append("': missing closing quote");
            Err(e)
        },
    }
}

// ---------------------------------------------------------------------------
// One run
// ---------------------------------------------------------------------------
/// How a run ended: its exit code, none where a signal ended it, and whether it ran out of space.
#[derive(Debug, Clone, Copy, PartialEq, Eq, Structural)]
pub struct RunOutcome {
    pub exit_code: Option<i32>,
    pub enospc: bool,
}

/// A text in lower case tells of a full disk.
pub open spec fn tells_of_full_disk(lower: Seq<char>) -> bool {
    ||| occurs(lower, "no space left on device"@)
    ||| occurs(lower, "errno 28"@)
    ||| occurs(lower, "enospc"@)
}

pub fn lower_signals_enospc(lower: &str) -> (r: bool)
    ensures
        r == tells_of_full_disk(lower@),
{
    contains(lower, "no space left on device") || contains(lower, "errno 28") || contains(
        lower,
        "enospc",
    )
}

/// Whether what a command printed to stderr tells of a full disk, in any case.
pub fn stderr_signals_enospc(stderr: &str) -> (r: bool)
    ensures
        r == tells_of_full_disk(lowered(stderr@)),
{
    let lower: String = to_lower(stderr);
    lower_signals_enospc(lower.as_str())
}

/// The outcome of a run that ended.
pub fn run_outcome(exit_code: Option<i32>, stderr: &str) -> (r: RunOutcome)
    ensures
        r.exit_code == exit_code,
        r.enospc == (exit_code == Some(ENOSPC_EXIT_CODE) || tells_of_full_disk(lowered(stderr@))),
        exit_code == Some(28i32) ==> r.enospc,
{
    let by_code: bool = match exit_code {
        Some(c) => c == ENOSPC_EXIT_CODE,
        None => false,
    };
    RunOutcome { exit_code, enospc: by_code || stderr_signals_enospc(stderr) }
}

pub open spec fn spawn_complaint(program: Seq<char>, reason: Seq<char>) -> Seq<char> {
    "failed to spawn '"@ + program + "': "@ + reason
}

/// The outcome of a run that could not start: out of space where the disk is full, else an error.
pub fn spawn_failure(program: &str, storage_full: bool, reason: &str) -> (r: Result<
    RunOutcome,
    String,
>)
    ensures
        match r {
            Ok(o) => storage_full && o == (RunOutcome { exit_code: None, enospc: true }),
            Err(e) => !storage_full && e@ == spawn_complaint(program@, reason@),
        },
{
    if storage_full {
        return Ok(RunOutcome { exit_code: None, enospc: true });
    }
    let mut e: String = "failed to spawn '".to_owned();
    e.append(program);
    e.append("': ");
    e.append(reason);
    Err(e)
}

// ---------------------------------------------------------------------------
// Recovery
// ---------------------------------------------------------------------------
/// What to recover.
#[derive(Debug, Clone, Copy, PartialEq, Eq, Structural)]
pub struct Recovery {
    pub df_before: u64,
    pub need_bytes: u64,
    pub to_recover: u64,
    pub mode: Mode,
}

pub open spec fn known(reading: Option<u64>) -> u64 {
    match reading {
        Some(f) => f,
        None => 0,
    }
}

/// Nothing is recovered where enough is free already.
pub open spec fn recovery_of(need: u64, free: Option<u64>, threshold: u64) -> Option<Recovery> {
    let f = known(free);
    if need > f {
        Some(
            Recovery {
                df_before: f,
                need_bytes: need,
                to_recover: (need - f) as u64,
                mode: mode_under_pressure(f, threshold),
            },
        )
    } else {
        None
    }
}

pub fn recovery_for(need: u64, free: Option<u64>, threshold: u64) -> (r: Option<Recovery>)
    ensures
        r == recovery_of(need, free, threshold),
{
    let f: u64 = match free {
        Some(f) => f,
        None => 0,
    };
    if need > f {
        Some(
            Recovery {
                df_before: f,
                need_bytes: need,
                to_recover: need - f,
                mode: choose_mode(f, threshold),
            },
        )
    } else {
        None
    }
}

/// The size that was asked for, `DEFAULT_NEED` where none was; zero where it cannot be read.
pub open spec fn guard_need(asked: Option<Seq<char>>) -> u64 {
    let text = match asked {
        Some(s) => s,
        None => DEFAULT_NEED@,
    };
    match size_in(lowered(trimmed(text))) {
        Some(b) => b,
        None => 0,
    }
}

pub fn needed_bytes(asked: Option<&str>) -> (r: u64)
    ensures
        r == guard_need(opt_str_view(asked)),
{
    let text: &str = match asked {
        Some(s) => s,
        None => DEFAULT_NEED,
    };
    match parse_size(text) {
        Some(b) => b,
        None => 0,
    }
}

/// What freeing space for a command asks of a plan.
pub fn free_space(asked: Option<&str>, free: Option<u64>, threshold: u64) -> (r: Option<Recovery>)
    ensures
        r == recovery_of(guard_need(opt_str_view(asked)), free, threshold),
{
    let need: u64 = needed_bytes(asked);
    recovery_for(need, free, threshold)
}

// ---------------------------------------------------------------------------
// The course of events
// ---------------------------------------------------------------------------
#[derive(Debug, Clone, Copy, PartialEq, Eq, Structural)]
pub enum GuardPhase {
    /// The command is to be run.
    FirstRun,
    /// Space is to be freed.
    Recovery,
    /// The command is to be run again.
    SecondRun,
    /// The trace is to be written.
    Done,
}

#[derive(Debug)]
pub enum GuardEvent {
    /// The command ran.
    Ran(RunOutcome),
    /// So many bytes came free.
    Freed(u64),
    /// What was to be done could not be done.
    Failed(String),
}

pub ghost enum GuardEventView {
    Ran(RunOutcome),
    Freed(u64),
    Failed(Seq<char>),
}

impl View for GuardEvent {
    type V = GuardEventView;

    open spec fn view(&self) -> GuardEventView {
        match self {
            GuardEvent::Ran(o) => GuardEventView::Ran(*o),
            GuardEvent::Freed(b) => GuardEventView::Freed(*b),
            GuardEvent::Failed(e) => GuardEventView::Failed(e@),
        }
    }
}

/// Where the guard stands.
#[derive(Debug)]
pub struct GuardRun {
    pub phase: GuardPhase,
    pub first_exit: Option<i32>,
    pub enospc_detected: bool,
    pub freed_bytes: u64,
    pub second_exit: Option<i32>,
    pub re_execed: bool,
    pub error: Option<String>,
}

pub ghost struct GuardView {
    pub phase: GuardPhase,
    pub first_exit: Option<i32>,
    pub enospc_detected: bool,
    pub freed_bytes: u64,
    pub second_exit: Option<i32>,
    pub re_execed: bool,
    pub error: Option<Seq<char>>,
}

impl View for GuardRun {
    type V = GuardView;

    open spec fn view(&self) -> GuardView {
        GuardView {
            phase: self.phase,
            first_exit: self.first_exit,
            enospc_detected: self.enospc_detected,
            freed_bytes: self.freed_bytes,
            second_exit: self.second_exit,
            re_execed: self.re_execed,
            error: opt_view(self.error),
        }
    }
}

/// The start: an empty command line leaves nothing to run.
pub open spec fn guard_start(words: nat) -> GuardView {
    GuardView {
        phase: if words == 0 {
            GuardPhase::Done
        } else {
            GuardPhase::FirstRun
        },
        first_exit: None,
        enospc_detected: false,
        freed_bytes: 0,
        second_exit: None,
        re_execed: false,
        error: None,
    }
}

/// What an event makes of the state; one that the phase does not wait for changes nothing.
pub open spec fn guard_next(s: GuardView, e: GuardEventView) -> GuardView {
    match (s.phase, e) {
        (GuardPhase::FirstRun, GuardEventView::Ran(o)) => GuardView {
            phase: if o.enospc {
                GuardPhase::Recovery
            } else {
                GuardPhase::Done
            },
            first_exit: o.exit_code,
            enospc_detected: o.enospc,
            ..s
        },
        (GuardPhase::Recovery, GuardEventView::Freed(b)) => GuardView {
            phase: if b > 0 {
                GuardPhase::SecondRun
            } else {
                GuardPhase::Done
            },
            freed_bytes: b,
            ..s
        },
        (GuardPhase::SecondRun, GuardEventView::Ran(o)) => GuardView {
            phase: GuardPhase::Done,
            second_exit: o.exit_code,
            re_execed: true,
            ..s
        },
        (GuardPhase::FirstRun, GuardEventView::Failed(m)) => GuardView {
            phase: GuardPhase::Done,
            error: Some(m),
            ..s
        },
        (GuardPhase::Recovery, GuardEventView::Failed(m)) => GuardView {
            phase: GuardPhase::Done,
            error: Some(m),
            ..s
        },
        (GuardPhase::SecondRun, GuardEventView::Failed(m)) => GuardView {
            phase: GuardPhase::Done,
            error: Some(m),
            ..s
        },
        _ => s,
    }
}

/// The code that the guarded command counts as having ended with.
pub open spec fn effective_exit(s: GuardView) -> Option<i32> {
    if s.re_execed {
        s.second_exit
    } else {
        s.first_exit
    }
}

pub open spec fn succeeded(s: GuardView) -> bool {
    s.error is None && effective_exit(s) == Some(0i32)
}

/// The exit code of the guard itself: that of the command, one where there is none.
pub open spec fn guard_exit(s: GuardView) -> i32 {
    if s.error is Some {
        1
    } else {
        match effective_exit(s) {
            Some(c) => c,
            None => 1,
        }
    }
}

impl GuardRun {
    /// Starts with the words of the command line.
    pub fn begin(argv: &Vec<String>) -> (r: GuardRun)
        ensures
            r@ == guard_start(argv@.len()),
    {
        GuardRun {
            phase: if argv.len() == 0 {
                GuardPhase::Done
            } else {
                GuardPhase::FirstRun
            },
            first_exit: None,
            enospc_detected: false,
            freed_bytes: 0,
            second_exit: None,
            re_execed: false,
            error: None,
        }
    }

    /// Takes in what happened.
    pub fn step(&mut self, event: GuardEvent)
        ensures
            final(self)@ == guard_next(old(self)@, event@),
    {
        match event {
            GuardEvent::Ran(o) => match self.phase {
                GuardPhase::FirstRun => {
                    self.phase = if o.enospc {
                        GuardPhase::Recovery
                    } else {
                        GuardPhase::Done
                    };
                    self.first_exit = o.exit_code;
                    self.enospc_detected = o.enospc;
                },
                GuardPhase::SecondRun => {
                    self.phase = GuardPhase::Done;
                    self.second_exit = o.exit_code;
                    self.re_execed = true;
                },
                _ => {},
            },
            GuardEvent::Freed(b) => match self.phase {
                GuardPhase::Recovery => {
                    self.phase = if b > 0 {
                        GuardPhase::SecondRun
                    } else {
                        GuardPhase::Done
                    };
                    self.freed_bytes = b;
                },
                _ => {},
            },
            GuardEvent::Failed(m) => match self.phase {
                GuardPhase::Done => {},
                _ => {
                    self.phase = GuardPhase::Done;
                    self.error = Some(m);
                },
            },
        }
    }

    pub fn success(&self) -> (r: bool)
        ensures
            r == succeeded(self@),
    {
        let effective: Option<i32> = if self.re_execed {
            self.second_exit
        } else {
            self.first_exit
        };
        let zero: bool = match effective {
            Some(c) => c == 0,
            None => false,
        };
        self.error.is_none() && zero
    }

    pub fn exit_code(&self) -> (r: i32)
        ensures
            r == guard_exit(self@),
    {
        if self.error.is_some() {
            return 1;
        }
        let effective: Option<i32> = if self.re_execed {
            self.second_exit
        } else {
            self.first_exit
        };
        match effective {
            Some(c) => c,
            None => 1,
        }
    }

    /// The trace of the whole: one for every end, with an error where there was one.
    pub fn trace(&self, cmd: &str) -> (r: Trace)
        ensures
            r.cmd@ == cmd@,
            r.first_exit == self@.first_exit,
            r.enospc_detected == self@.enospc_detected,
            r.freed_bytes == self@.freed_bytes,
            r.second_exit == self@.second_exit,
            r.success == succeeded(self@),
            r.re_execed == self@.re_execed,
            opt_view(r.error) == self@.error,
    {
        Trace {
            cmd: cmd.to_owned(),
            first_exit: self.first_exit,
            enospc_detected: self.enospc_detected,
            freed_bytes: self.freed_bytes,
            second_exit: self.second_exit,
            success: self.success(),
            re_execed: self.re_execed,
            error: copy_option(&self.error),
        }
    }
}

/// What the guard reports.
#[derive(Debug)]
pub struct Trace {
    pub cmd: String,
    pub first_exit: Option<i32>,
    pub enospc_detected: bool,
    pub freed_bytes: u64,
    pub second_exit: Option<i32>,
    pub success: bool,
    pub re_execed: bool,
    pub error: Option<String>,
}

// ---------------------------------------------------------------------------
// What holds of every course
// ---------------------------------------------------------------------------
/// The state after a course of events.
pub open spec fn guard_after(words: nat, events: Seq<GuardEventView>) -> GuardView
    decreases events.len(),
{
    if events.len() == 0 {
        guard_start(words)
    } else {
        guard_next(guard_after(words, events.drop_last()), events.last())
    }
}

/// The phase is one in which the command is run.
pub open spec fn runs_command(p: GuardPhase) -> bool {
    p == GuardPhase::FirstRun || p == GuardPhase::SecondRun
}

/// How often the command was run in a course of events.
pub open spec fn runs(words: nat, events: Seq<GuardEventView>) -> nat
    decreases events.len(),
{
    if events.len() == 0 {
        0
    } else {
        let before = guard_after(words, events.drop_last());
        runs(words, events.drop_last()) + if runs_command(before.phase) && events.last() is Ran {
            1nat
        } else {
            0
        }
    }
}

/// How often space was freed in a course of events.
pub open spec fn recoveries(words: nat, events: Seq<GuardEventView>) -> nat
    decreases events.len(),
{
    if events.len() == 0 {
        0
    } else {
        let before = guard_after(words, events.drop_last());
        recoveries(words, events.drop_last()) + if before.phase == GuardPhase::Recovery
            && events.last() is Freed {
            1nat
        } else {
            0
        }
    }
}

proof fn lemma_course(words: nat, events: Seq<GuardEventView>)
    ensures
        ({
            let s = guard_after(words, events);
            &&& s.phase == GuardPhase::FirstRun ==> runs(words, events) == 0 && recoveries(
                words,
                events,
            ) == 0 && !s.enospc_detected
            &&& s.phase == GuardPhase::Recovery ==> runs(words, events) == 1 && recoveries(
                words,
                events,
            ) == 0 && s.enospc_detected
            &&& s.phase == GuardPhase::SecondRun ==> runs(words, events) == 1 && recoveries(
                words,
                events,
            ) == 1 && s.enospc_detected && s.freed_bytes > 0
            &&& runs(words, events) <= 2
            &&& recoveries(words, events) <= 1
            &&& recoveries(words, events) == 1 ==> s.enospc_detected
            &&& runs(words, events) == 2 <==> s.re_execed
            &&& s.re_execed ==> s.enospc_detected && s.freed_bytes > 0
            &&& s.freed_bytes > 0 ==> recoveries(words, events) == 1
            &&& s.phase != GuardPhase::Done ==> s.error is None && !s.re_execed
        }),
    decreases events.len(),
{
    if events.len() > 0 {
        lemma_course(words, events.drop_last());
    }
}

/// The command is run at most twice and space is freed at most once, whatever happens.
pub proof fn command_is_run_again_at_most_once(words: nat, events: Seq<GuardEventView>)
    ensures
        runs(words, events) <= 2,
        recoveries(words, events) <= 1,
{
    lemma_course(words, events);
}

/// The command is run again only where it ran out of space and space was freed.
pub proof fn rerun_needs_freed_space(words: nat, events: Seq<GuardEventView>)
    ensures
        guard_after(words, events).re_execed <==> runs(words, events) == 2,
        runs(words, events) == 2 ==> guard_after(words, events).enospc_detected && guard_after(
            words,
            events,
        ).freed_bytes > 0,
{
    lemma_course(words, events);
}

/// Space is freed only after a run that ran out of it.
pub proof fn recovery_needs_a_full_disk(words: nat, events: Seq<GuardEventView>)
    ensures
        recoveries(words, events) > 0 ==> guard_after(words, events).enospc_detected,
        guard_after(words, events).phase == GuardPhase::Recovery ==> guard_after(
            words,
            events,
        ).enospc_detected,
{
    lemma_course(words, events);
}

/// The exit code is zero just where the trace says success.
pub proof fn exit_mirrors_success(s: GuardView)
    ensures
        guard_exit(s) == 0 <==> succeeded(s),
{
}

/// A failure is never a success, whatever the command ended with before it.
pub proof fn failure_ends_in_error(s: GuardView, message: Seq<char>)
    requires
        s.phase != GuardPhase::Done,
    ensures
        ({
            let t = guard_next(s, GuardEventView::Failed(message));
            &&& t.phase == GuardPhase::Done
            &&& t.error == Some(message)
            &&& !succeeded(t)
            &&& guard_exit(t) == 1
        }),
{
}

} // verus!
