//! The supervisor of one child process.
//!
//! The supervisor decides; it does not act. Its driver owns the child and the
//! sink of the job's output. It performs the [`ChildAction`] that the
//! supervisor names, reports what came of it as a [`ChildEvent`], and goes on
//! until the action is [`ChildAction::Finish`], which carries the job's times
//! and status.
//!
//! Without a deadline the actions are: drain, wait, finish. Under a deadline a
//! timed wait comes first; where it expires the child is killed and drained,
//! and the job finishes with exit code -1 and signal 15.

use crate::arguments::QUIET_MODE;
use std::time::Duration;
use vstd::prelude::*;

verus! {

/// The exit code reported for a child that did not exit normally.
pub const NO_EXIT_CODE: i32 = -1;

/// The signal reported for a child that exited normally, or whose wait failed.
pub const NO_SIGNAL: i32 = 0;

/// The signal reported for a child that was killed at its deadline.
pub const SIGTERM: i32 = 15;

/// A wall-clock instant: seconds since the epoch, and nanoseconds within the
/// second.
#[derive(Clone, Copy, Debug, PartialEq, Eq)]
pub struct Timestamp {
    pub sec: i64,
    pub nsec: i32,
}

impl Timestamp {
    /// The nanoseconds are less than one second.
    pub open spec fn wf(self) -> bool {
        0 <= self.nsec < 1_000_000_000
    }
}

/// How a wait under a deadline ended.
#[derive(Clone, Copy, Debug, PartialEq, Eq)]
pub enum Expiry {
    /// The child exited before the deadline.
    Exited,
    /// The deadline passed and the child was still running.
    Expired,
    /// The wait itself failed.
    Failed,
}

/// How a wait without a deadline ended.
#[derive(Clone, Copy, Debug, PartialEq, Eq)]
pub enum Exit {
    /// The child exited with this code.
    Code(i32),
    /// The child was terminated by this signal.
    Signal(i32),
    /// The wait itself failed.
    Failed,
}

/// What the driver reports to the supervisor.
#[derive(Clone, Copy, Debug, PartialEq, Eq)]
pub enum ChildEvent {
    /// The wait under the deadline returned.
    Deadline(Expiry),
    /// The child was sent the kill request; whether that succeeded is not asked.
    Killed,
    /// Standard output and standard error were read to their end into the sink.
    Drained,
    /// The wait without a deadline returned.
    Waited(Exit),
}

/// What the supervisor asks of its driver.
#[derive(Clone, Copy, Debug, PartialEq, Eq)]
pub enum ChildAction {
    /// Wait for the child to exit, this long at most.
    WaitFor(Duration),
    /// Kill the child, and ignore a failure to do so.
    Kill,
    /// Read the child's output and error streams to their end into the sink,
    /// mirroring them to the terminal unless `quiet`.
    Drain { quiet: bool },
    /// Wait for the child to exit, however long it takes.
    Wait,
    /// The job is over: start time, end time, exit code, signal.
    Finish(Timestamp, Timestamp, i32, i32),
}

/// Where the supervision of a child stands: which action was asked for last.
#[derive(Clone, Copy, Debug, PartialEq, Eq)]
pub enum Phase {
    /// The wait under the deadline was asked for.
    Timing,
    /// The kill was asked for.
    Killing,
    /// The drain was asked for; `timed_out` where the child was killed first.
    Draining { timed_out: bool },
    /// The wait without a deadline was asked for.
    Waiting,
    /// The job is over, with this end time, exit code and signal.
    Finished(Timestamp, i32, i32),
}

/// The supervisor's state for one child.
#[derive(Clone, Copy, Debug, PartialEq, Eq)]
pub struct Supervision {
    /// Where the supervision stands.
    pub phase: Phase,
    /// Whether the job's output is kept from the terminal.
    pub quiet: bool,
    /// The deadline of the timed wait; read only while `phase` is `Timing`.
    pub timeout: Duration,
    /// The wall-clock time immediately before the first wait was asked for.
    pub start: Timestamp,
}

/// Whether `flags` has the quiet bit set.
pub open spec fn is_quiet(flags: u16) -> bool {
    flags & QUIET_MODE != 0
}

/// The exit code and signal that stand for the end of a wait.
pub open spec fn status_of(exit: Exit) -> (i32, i32) {
    match exit {
        Exit::Code(code) => (code, NO_SIGNAL),
        Exit::Signal(signal) => (NO_EXIT_CODE, signal),
        Exit::Failed => (NO_EXIT_CODE, NO_SIGNAL),
    }
}

/// The action that a supervision in state `s` has asked for and not yet seen
/// answered.
pub open spec fn pending_action(s: Supervision) -> ChildAction {
    match s.phase {
        Phase::Timing => ChildAction::WaitFor(s.timeout),
        Phase::Killing => ChildAction::Kill,
        Phase::Draining { .. } => ChildAction::Drain { quiet: s.quiet },
        Phase::Waiting => ChildAction::Wait,
        Phase::Finished(end, exit_code, signal) => ChildAction::Finish(
            s.start,
            end,
            exit_code,
            signal,
        ),
    }
}

/// The start of a supervision where the clock reads `now`: under a deadline
/// the timed wait comes first, else the drain.
pub open spec fn begin(flags: u16, has_timeout: bool, timeout: Duration, now: Timestamp) -> (
    Supervision,
    ChildAction,
) {
    let phase = if has_timeout {
        Phase::Timing
    } else {
        Phase::Draining { timed_out: false }
    };
    let s = Supervision { phase, quiet: is_quiet(flags), timeout, start: now };
    (s, pending_action(s))
}

/// Whether the step from `s` on `event` ends the job, and so reads the clock.
pub open spec fn reads_clock(s: Supervision, event: ChildEvent) -> bool {
    match (s.phase, event) {
        (Phase::Draining { timed_out }, ChildEvent::Drained) => timed_out,
        (Phase::Waiting, ChildEvent::Waited(_)) => true,
        _ => false,
    }
}

/// The phase that follows phase `phase` on `event`, where the clock reads
/// `now`.
///
/// An event that does not answer the action asked for changes nothing.
pub open spec fn next_phase(phase: Phase, event: ChildEvent, now: Timestamp) -> Phase {
    match (phase, event) {
        (Phase::Timing, ChildEvent::Deadline(Expiry::Expired)) => Phase::Killing,
        (Phase::Timing, ChildEvent::Deadline(_)) => Phase::Draining { timed_out: false },
        (Phase::Killing, ChildEvent::Killed) => Phase::Draining { timed_out: true },
        (Phase::Draining { timed_out: true }, ChildEvent::Drained) => Phase::Finished(
            now,
            NO_EXIT_CODE,
            SIGTERM,
        ),
        (Phase::Draining { timed_out: false }, ChildEvent::Drained) => Phase::Waiting,
        (Phase::Waiting, ChildEvent::Waited(exit)) => Phase::Finished(
            now,
            status_of(exit).0,
            status_of(exit).1,
        ),
        _ => phase,
    }
}

/// The supervisor's transition: the state after `event`, and the action to
/// perform next, where the clock reads `now` at the time of the step.
pub open spec fn step(s: Supervision, event: ChildEvent, now: Timestamp) -> (
    Supervision,
    ChildAction,
) {
    let next = Supervision { phase: next_phase(s.phase, event, now), ..s };
    (next, pending_action(next))
}

/// The last action of a supervision whose driver answers each action in
/// turn: the clock reads `start` when the supervision begins and `end` when
/// the job ends, the timed wait, where there is one, ends as `expiry`, and the
/// wait without a deadline, where it comes to that, ends as `exit`.
pub open spec fn supervised(
    flags: u16,
    has_timeout: bool,
    timeout: Duration,
    expiry: Expiry,
    exit: Exit,
    start: Timestamp,
    end: Timestamp,
) -> ChildAction {
    let begun = begin(flags, has_timeout, timeout, start).0;
    let timed = if begun.phase is Timing {
        step(begun, ChildEvent::Deadline(expiry), end).0
    } else {
        begun
    };
    let killed = if timed.phase is Killing {
        step(timed, ChildEvent::Killed, end).0
    } else {
        timed
    };
    let drained = step(killed, ChildEvent::Drained, end);
    if drained.0.phase is Waiting {
        step(drained.0, ChildEvent::Waited(exit), end).1
    } else {
        drained.1
    }
}

/// A child that is still running when its deadline passes is killed, and its
/// job ends with exit code -1 and signal 15, whatever a wait would have said.
pub proof fn lemma_timeout_is_reported(
    flags: u16,
    timeout: Duration,
    exit: Exit,
    start: Timestamp,
    end: Timestamp,
)
    ensures
        step(begin(flags, true, timeout, start).0, ChildEvent::Deadline(Expiry::Expired), end).1
            == ChildAction::Kill,
        supervised(flags, true, timeout, Expiry::Expired, exit, start, end) == ChildAction::Finish(
            start,
            end,
            NO_EXIT_CODE,
            SIGTERM,
        ),
{
}

/// A child that exits with a code before any deadline passes has its job end
/// with that code and signal 0.
pub proof fn lemma_exit_code_is_reported(
    flags: u16,
    has_timeout: bool,
    timeout: Duration,
    expiry: Expiry,
    code: i32,
    start: Timestamp,
    end: Timestamp,
)
    requires
        has_timeout ==> expiry != Expiry::Expired,
    ensures
        supervised(flags, has_timeout, timeout, expiry, Exit::Code(code), start, end)
            == ChildAction::Finish(start, end, code, NO_SIGNAL),
{
}

/// A child that a signal terminates before any deadline passes has its job
/// end with exit code -1 and that signal.
pub proof fn lemma_signal_is_reported(
    flags: u16,
    has_timeout: bool,
    timeout: Duration,
    expiry: Expiry,
    signal: i32,
    start: Timestamp,
    end: Timestamp,
)
    requires
        has_timeout ==> expiry != Expiry::Expired,
    ensures
        supervised(flags, has_timeout, timeout, expiry, Exit::Signal(signal), start, end)
            == ChildAction::Finish(start, end, NO_EXIT_CODE, signal),
{
}

/// A wait that fails before any deadline passes has the job end with exit
/// code -1 and signal 0.
pub proof fn lemma_failed_wait_is_reported(
    flags: u16,
    has_timeout: bool,
    timeout: Duration,
    expiry: Expiry,
    start: Timestamp,
    end: Timestamp,
)
    requires
        has_timeout ==> expiry != Expiry::Expired,
    ensures
        supervised(flags, has_timeout, timeout, expiry, Exit::Failed, start, end)
            == ChildAction::Finish(start, end, NO_EXIT_CODE, NO_SIGNAL),
{
}

/// No job ends before its output was drained: the step that ends a job
/// answers the drain of a child that was killed, or the wait that is asked
/// for only once the drain is over.
pub proof fn lemma_drained_before_finish(s: Supervision, event: ChildEvent, now: Timestamp)
    requires
        !(s.phase is Finished),
        step(s, event, now).1 is Finish,
    ensures
        (s.phase == (Phase::Draining { timed_out: true }) && event == ChildEvent::Drained) || (
        s.phase is Waiting && event is Waited),
        forall|before: Supervision, answer: ChildEvent, then: Timestamp|
            #[trigger] step(before, answer, then).0.phase is Waiting && !(before.phase is Waiting)
                ==> before.phase is Draining && answer == ChildEvent::Drained,
{
}

/// `time::get_time`: the wall clock's reading, as seconds and nanoseconds
/// since the epoch. Nothing is claimed of the instant itself; the crate builds
/// its result with a constructor that admits only nanoseconds within one
/// second.
#[verifier::external_body]
fn get_time() -> (now: Timestamp)
    ensures
        now.wf(),
{
    let now = time::get_time();
    Timestamp { sec: now.sec, nsec: now.nsec }
}

impl Supervision {
    /// Starts the supervision of a freshly spawned child at time `now`.
    pub fn begin_at(flags: u16, has_timeout: bool, timeout: Duration, now: Timestamp) -> (begun: (
        Supervision,
        ChildAction,
    ))
        ensures
            begun == begin(flags, has_timeout, timeout, now),
    {
        let quiet = flags & QUIET_MODE != 0;
        if has_timeout {
            (
                Supervision { phase: Phase::Timing, quiet, timeout, start: now },
                ChildAction::WaitFor(timeout),
            )
        } else {
            (
                Supervision { phase: Phase::Draining { timed_out: false }, quiet, timeout, start: now },
                ChildAction::Drain { quiet },
            )
        }
    }

    /// The action that was asked for last.
    pub fn pending(&self) -> (action: ChildAction)
        ensures
            action == pending_action(*self),
    {
        match self.phase {
            Phase::Timing => ChildAction::WaitFor(self.timeout),
            Phase::Killing => ChildAction::Kill,
            Phase::Draining { .. } => ChildAction::Drain { quiet: self.quiet },
            Phase::Waiting => ChildAction::Wait,
            Phase::Finished(end, exit_code, signal) => ChildAction::Finish(
                self.start,
                end,
                exit_code,
                signal,
            ),
        }
    }

    /// Whether the step on `event` reads the clock.
    pub fn ends_on(&self, event: ChildEvent) -> (ends: bool)
        ensures
            ends == reads_clock(*self, event),
    {
        match (self.phase, event) {
            (Phase::Draining { timed_out }, ChildEvent::Drained) => timed_out,
            (Phase::Waiting, ChildEvent::Waited(_)) => true,
            _ => false,
        }
    }

    /// Takes the step on `event` at time `now`.
    pub fn resume_at(self, event: ChildEvent, now: Timestamp) -> (next: (Supervision, ChildAction))
        ensures
            next == step(self, event, now),
    {
        let phase = match (self.phase, event) {
            (Phase::Timing, ChildEvent::Deadline(Expiry::Expired)) => Phase::Killing,
            (Phase::Timing, ChildEvent::Deadline(_)) => Phase::Draining { timed_out: false },
            (Phase::Killing, ChildEvent::Killed) => Phase::Draining { timed_out: true },
            (Phase::Draining { timed_out: true }, ChildEvent::Drained) => Phase::Finished(
                now,
                NO_EXIT_CODE,
                SIGTERM,
            ),
            (Phase::Draining { timed_out: false }, ChildEvent::Drained) => Phase::Waiting,
            (Phase::Waiting, ChildEvent::Waited(exit)) => match exit {
                Exit::Code(code) => Phase::Finished(now, code, NO_SIGNAL),
                Exit::Signal(signal) => Phase::Finished(now, NO_EXIT_CODE, signal),
                Exit::Failed => Phase::Finished(now, NO_EXIT_CODE, NO_SIGNAL),
            },
            (phase, _) => phase,
        };
        let next = Supervision { phase, quiet: self.quiet, timeout: self.timeout, start: self.start };
        let action = next.pending();
        (next, action)
    }

    /// Takes the step on `event`, reading the clock where the step ends the
    /// job. Of the time read nothing is known but that it is well formed.
    pub fn resume(self, event: ChildEvent) -> (next: (Supervision, ChildAction))
        ensures
            exists|now: Timestamp| now.wf() && next == #[trigger] step(self, event, now),
            !reads_clock(self, event) ==> next == step(self, event, self.start),
    {
        if self.ends_on(event) {
            let now = get_time();
            self.resume_at(event, now)
        } else {
            let next = self.resume_at(event, self.start);
            proof {
                let now = Timestamp { sec: 0, nsec: 0 };
                assert(next == step(self, event, now));
            }
            next
        }
    }
}

/// Starts the supervision of a freshly spawned child: reads the clock for the
/// job's start time and names the first action. Of the time read nothing is
/// known but that it is well formed.
pub fn handle_child(flags: u16, has_timeout: bool, timeout: Duration) -> (begun: (
    Supervision,
    ChildAction,
))
    ensures
        exists|now: Timestamp| now.wf() && begun == #[trigger] begin(flags, has_timeout, timeout, now),
{
    let now = get_time();
    Supervision::begin_at(flags, has_timeout, timeout, now)
}

} // verus!
