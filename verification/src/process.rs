//! The runs of `pixtool`: what follows what, and when its process tree is kept.

use crate::pixtool::RunProblem;
use vstd::prelude::*;
use vstd::string::*;

verus! {

/// How long a run waits for a slot, in seconds.
pub const PIXTOOL_QUEUE_TIMEOUT_SECONDS: u64 = 30;

/// How long a launch in the background is watched before it is reported, in milliseconds.
pub const LAUNCH_PROBE_MILLIS: u64 = 250;

/// How far a run is.
#[derive(Debug, Clone, Copy, PartialEq, Eq, Structural)]
pub enum RunState {
    /// It waits for a slot.
    Queued,
    /// It has a slot; the process is to be started.
    Starting,
    /// The process runs and is waited for.
    Running { process_id: u32 },
    /// The process ended; its streams are read to their end.
    Draining { process_id: u32, success: bool },
    /// The process runs too long: its tree is to be terminated.
    Stopping,
    /// The run failed. What still runs of its tree is terminated.
    Failed,
    /// The run is over. The processes that it started are left alone only where `keep_tree` says
    /// so.
    Finished { process_id: u32, keep_tree: bool },
    /// The process goes on in the background.
    Detached { process_id: u32 },
}

/// What happened to a run.
#[derive(Debug)]
pub enum RunEvent {
    SlotGranted,
    SlotTimeout,
    SlotsClosed,
    SlotsTaken,
    Spawned { process_id: Option<u32>, has_stdout: bool, has_stderr: bool },
    NotSpawned { error: String },
    Exited { success: bool, status: String },
    WaitFailed { error: String },
    TimedOut,
    StreamsRead,
    StreamTaskFailed { stream: String, error: String },
    StreamUnreadable { stream: String, error: String },
}

// ---------------------------------------------------------------------------
// Runs that are waited for
// ---------------------------------------------------------------------------

/// The state after an event, for a run whose output is wanted. What cannot happen in a state
/// fails the run.
pub open spec fn foreground_next(state: RunState, event: RunEvent) -> RunState {
    match (state, event) {
        (RunState::Queued, RunEvent::SlotGranted) => RunState::Starting,
        (
            RunState::Starting,
            RunEvent::Spawned { process_id: Some(id), has_stdout: true, has_stderr: true },
        ) => RunState::Running { process_id: id },
        (RunState::Running { process_id }, RunEvent::Exited { success, .. }) => RunState::Draining {
            process_id,
            success,
        },
        (RunState::Running { .. }, RunEvent::TimedOut) => RunState::Stopping,
        (RunState::Draining { process_id, success }, RunEvent::StreamsRead) => RunState::Finished {
            process_id,
            keep_tree: success,
        },
        _ => RunState::Failed,
    }
}

/// Whether `problem` is what is told after an event: every way to fail has its own message.
pub open spec fn foreground_tells(
    problem: Option<RunProblem>,
    state: RunState,
    event: RunEvent,
    timeout_seconds: u64,
) -> bool {
    match (state, event) {
        (RunState::Queued, RunEvent::SlotTimeout) => problem == Some(
            RunProblem::QueueTimeout { seconds: PIXTOOL_QUEUE_TIMEOUT_SECONDS },
        ),
        (RunState::Queued, RunEvent::SlotsClosed) => problem == Some(RunProblem::LimiterClosed),
        (RunState::Starting, RunEvent::NotSpawned { error }) => problem == Some(
            RunProblem::NotStarted { error },
        ),
        (RunState::Starting, RunEvent::Spawned { process_id, has_stdout, has_stderr }) => if process_id
            is None {
            problem == Some(RunProblem::NoProcessId)
        } else if !has_stdout {
            problem matches Some(RunProblem::NoStream { stream }) && stream@ == "stdout"@
        } else if !has_stderr {
            problem matches Some(RunProblem::NoStream { stream }) && stream@ == "stderr"@
        } else {
            problem is None
        },
        (RunState::Running { .. }, RunEvent::WaitFailed { error }) => problem == Some(
            RunProblem::WaitFailed { error },
        ),
        (RunState::Running { .. }, RunEvent::TimedOut) => problem == Some(
            RunProblem::TimedOut { seconds: timeout_seconds },
        ),
        (RunState::Draining { .. }, RunEvent::StreamTaskFailed { stream, error }) => problem
            == Some(RunProblem::StreamTaskFailed { stream, error }),
        (RunState::Draining { .. }, RunEvent::StreamUnreadable { stream, error }) => problem
            == Some(RunProblem::StreamUnreadable { stream, error }),
        _ => problem is None,
    }
}

fn missing_stream(name: &str) -> (r: (RunState, Option<RunProblem>))
    ensures
        r.0 == RunState::Failed,
        r.1 matches Some(RunProblem::NoStream { stream }) && stream@ == name@,
{
    (RunState::Failed, Some(RunProblem::NoStream { stream: name.to_string() }))
}

/// Takes a run whose output is wanted from one state to the next. Where something is wrong, the
/// second result says what.
pub fn foreground_step(state: RunState, event: RunEvent, timeout_seconds: u64) -> (r: (
    RunState,
    Option<RunProblem>,
))
    ensures
        r.0 == foreground_next(state, event),
        foreground_tells(r.1, state, event, timeout_seconds),
{
    match (state, event) {
        (RunState::Queued, RunEvent::SlotGranted) => (RunState::Starting, None),
        (RunState::Queued, RunEvent::SlotTimeout) => (
            RunState::Failed,
            Some(RunProblem::QueueTimeout { seconds: PIXTOOL_QUEUE_TIMEOUT_SECONDS }),
        ),
        (RunState::Queued, RunEvent::SlotsClosed) => (
            RunState::Failed,
            Some(RunProblem::LimiterClosed),
        ),
        (RunState::Starting, RunEvent::NotSpawned { error }) => (
            RunState::Failed,
            Some(RunProblem::NotStarted { error }),
        ),
        (RunState::Starting, RunEvent::Spawned { process_id, has_stdout, has_stderr }) => {
            match process_id {
                None => (RunState::Failed, Some(RunProblem::NoProcessId)),
                Some(id) => if !has_stdout {
                    missing_stream("stdout")
                } else if !has_stderr {
                    missing_stream("stderr")
                } else {
                    (RunState::Running { process_id: id }, None)
                },
            }
        },
        (RunState::Running { process_id }, RunEvent::Exited { success, .. }) => (
            RunState::Draining { process_id, success },
            None,
        ),
        (RunState::Running { .. }, RunEvent::WaitFailed { error }) => (
            RunState::Failed,
            Some(RunProblem::WaitFailed { error }),
        ),
        (RunState::Running { .. }, RunEvent::TimedOut) => (
            RunState::Stopping,
            Some(RunProblem::TimedOut { seconds: timeout_seconds }),
        ),
        (RunState::Draining { process_id, success }, RunEvent::StreamsRead) => (
            RunState::Finished { process_id, keep_tree: success },
            None,
        ),
        (RunState::Draining { .. }, RunEvent::StreamTaskFailed { stream, error }) => (
            RunState::Failed,
            Some(RunProblem::StreamTaskFailed { stream, error }),
        ),
        (RunState::Draining { .. }, RunEvent::StreamUnreadable { stream, error }) => (
            RunState::Failed,
            Some(RunProblem::StreamUnreadable { stream, error }),
        ),
        _ => (RunState::Failed, None),
    }
}

/// The state after a series of events.
pub open spec fn foreground_after(events: Seq<RunEvent>) -> RunState
    decreases events.len(),
{
    if events.len() == 0 {
        RunState::Queued
    } else {
        foreground_next(foreground_after(events.drop_last()), events.last())
    }
}

/// The processes that a run started are left alone only where `pixtool` itself ended well and
/// both of its streams were read; a run that finishes otherwise says that it did not end well.
pub proof fn process_tree_is_kept_only_after_success(events: Seq<RunEvent>)
    ensures
        match foreground_after(events) {
            RunState::Running { process_id } => events.len() == 2 && events[1]
                == (RunEvent::Spawned {
                process_id: Some(process_id),
                has_stdout: true,
                has_stderr: true,
            }),
            RunState::Draining { process_id, success } => events.len() == 3 && (
            events[2] matches RunEvent::Exited { success: ended_well, .. } && ended_well
                == success),
            RunState::Finished { process_id, keep_tree } => events.len() == 4 && (
            events[2] matches RunEvent::Exited { success, .. } && success == keep_tree)
                && events[3] == RunEvent::StreamsRead,
            RunState::Starting => events.len() == 1,
            RunState::Queued => events.len() == 0,
            RunState::Detached { .. } => false,
            _ => true,
        },
    decreases events.len(),
{
    if events.len() > 0 {
        let before = events.drop_last();
        process_tree_is_kept_only_after_success(before);
        assert(forall|i: int| 0 <= i < before.len() ==> before[i] == events[i]);
    }
}

// ---------------------------------------------------------------------------
// Launches in the background
// ---------------------------------------------------------------------------

/// The state after an event, for a launch that goes on in the background. A process that is
/// still there after the first look goes on by itself.
pub open spec fn background_next(state: RunState, event: RunEvent) -> RunState {
    match (state, event) {
        (RunState::Queued, RunEvent::SlotGranted) => RunState::Starting,
        (RunState::Starting, RunEvent::Spawned { process_id: Some(id), .. }) => RunState::Running {
            process_id: id,
        },
        (RunState::Running { process_id }, RunEvent::Exited { success: true, .. }) =>
            RunState::Finished { process_id, keep_tree: true },
        (RunState::Running { process_id }, RunEvent::TimedOut) => RunState::Detached { process_id },
        (RunState::Detached { process_id }, RunEvent::Exited { success, .. }) =>
            RunState::Finished { process_id, keep_tree: success },
        (RunState::Detached { .. }, RunEvent::TimedOut) => RunState::Stopping,
        _ => RunState::Failed,
    }
}

/// Whether `problem` is what is told after an event. Nothing is told once the launch goes on in
/// the background.
pub open spec fn background_tells(
    problem: Option<RunProblem>,
    state: RunState,
    event: RunEvent,
) -> bool {
    match (state, event) {
        (RunState::Queued, RunEvent::SlotsTaken) => problem == Some(RunProblem::TooManyLaunches),
        (RunState::Starting, RunEvent::NotSpawned { error }) => problem == Some(
            RunProblem::NotStarted { error },
        ),
        (RunState::Starting, RunEvent::Spawned { process_id: None, .. }) => problem == Some(
            RunProblem::NoProcessId,
        ),
        (RunState::Running { .. }, RunEvent::WaitFailed { error }) => problem == Some(
            RunProblem::StartFailed { error },
        ),
        (RunState::Running { .. }, RunEvent::Exited { success: false, status }) => problem == Some(
            RunProblem::EndedAtOnce { status },
        ),
        _ => problem is None,
    }
}

/// Takes a launch in the background from one state to the next. Where something is wrong, the
/// second result says what.
pub fn background_step(state: RunState, event: RunEvent) -> (r: (RunState, Option<RunProblem>))
    ensures
        r.0 == background_next(state, event),
        background_tells(r.1, state, event),
{
    match (state, event) {
        (RunState::Queued, RunEvent::SlotGranted) => (RunState::Starting, None),
        (RunState::Queued, RunEvent::SlotsTaken) => (
            RunState::Failed,
            Some(RunProblem::TooManyLaunches),
        ),
        (RunState::Starting, RunEvent::NotSpawned { error }) => (
            RunState::Failed,
            Some(RunProblem::NotStarted { error }),
        ),
        (RunState::Starting, RunEvent::Spawned { process_id, .. }) => match process_id {
            None => (RunState::Failed, Some(RunProblem::NoProcessId)),
            Some(id) => (RunState::Running { process_id: id }, None),
        },
        (RunState::Running { process_id }, RunEvent::Exited { success, status }) => if success {
            (RunState::Finished { process_id, keep_tree: true }, None)
        } else {
            (RunState::Failed, Some(RunProblem::EndedAtOnce { status }))
        },
        (RunState::Running { .. }, RunEvent::WaitFailed { error }) => (
            RunState::Failed,
            Some(RunProblem::StartFailed { error }),
        ),
        (RunState::Running { process_id }, RunEvent::TimedOut) => (
            RunState::Detached { process_id },
            None,
        ),
        (RunState::Detached { process_id }, RunEvent::Exited { success, .. }) => (
            RunState::Finished { process_id, keep_tree: success },
            None,
        ),
        (RunState::Detached { .. }, RunEvent::TimedOut) => (RunState::Stopping, None),
        _ => (RunState::Failed, None),
    }
}

/// Whatever happens to a launch, its tree is kept only after an event that says that `pixtool`
/// ended well.
pub proof fn launched_tree_is_kept_only_after_success(state: RunState, event: RunEvent)
    requires
        !(state matches RunState::Finished { .. }),
    ensures
        background_next(state, event) matches RunState::Finished { keep_tree, .. } ==> (
        event matches RunEvent::Exited { success, .. } && success == keep_tree),
{
}

} // verus!
