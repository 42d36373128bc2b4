//! What holds of the commands that `pixtool` is given, of its runs, and of the captures it leaves.

use crate::diagnostics::developer_mode_guidance;
use crate::numbers::decimal;
use crate::order::{sorted, sorted_is_an_ordered_rearrangement, text_less, Precedence};
use crate::paths::{has_extension, names_file};
use crate::pixtool::{
    argument_problem, arguments_problem, captures_among, command_line, failed_text,
    gpu_capture_failure, gpu_capture_launch_failure, is_safe, later, launch_options,
    launch_options_problem, saved_problem, says_not_launched, Arg, DirectoryEntry, FileTime,
    NewestFirst, RunProblem, SavedProbe,
};
use crate::process::{
    background_next, background_tells, foreground_after, foreground_next, foreground_tells,
    RunEvent, RunState,
};
use crate::text::{has_part, is_control, joined, unicode_lower};
use crate::text_laws::parts_are_found_anywhere;
use vstd::prelude::*;
use vstd::string::*;

verus! {

// ---------------------------------------------------------------------------
// Arguments
// ---------------------------------------------------------------------------

/// A value can be passed exactly where no character of it is a quotation mark or a control
/// character.
pub proof fn safe_values_have_safe_parts(a: Seq<char>, b: Seq<char>, c: char)
    ensures
        is_safe(a + b) <==> is_safe(a) && is_safe(b),
        is_safe(seq![c]) <==> c != '"' && !is_control(c),
        is_safe(Seq::empty()),
{
    let s = a + b;
    if is_safe(s) {
        assert forall|i: int| 0 <= i < a.len() implies #[trigger] a[i] != '"' && !is_control(
            a[i],
        ) by {
            assert(s[i] == a[i]);
        }
        assert forall|i: int| 0 <= i < b.len() implies #[trigger] b[i] != '"' && !is_control(
            b[i],
        ) by {
            assert(s[a.len() + i] == b[i]);
        }
    }
    if is_safe(seq![c]) {
        assert(seq![c][0] == c);
    }
}

/// Of several application arguments, the first with a problem is told, wherever it stands.
pub proof fn the_first_faulty_argument_is_told(
    before: Seq<Seq<char>>,
    value: Seq<char>,
    after: Seq<Seq<char>>,
)
    requires
        forall|i: int| 0 <= i < before.len() ==> argument_problem(#[trigger] before[i]) is None,
    ensures
        argument_problem(value) is Some ==> arguments_problem(before + seq![value] + after)
            == argument_problem(value),
        arguments_problem(before) is None,
    decreases before.len() + after.len(),
{
    let all = before + seq![value] + after;
    if before.len() > 0 {
        let head = before.drop_last();
        assert forall|i: int| 0 <= i < head.len() implies argument_problem(#[trigger] head[i])
            is None by {
            assert(head[i] == before[i]);
        }
        the_first_faulty_argument_is_told(head, value, Seq::empty());
        assert(argument_problem(before[before.len() - 1]) is None);
    }
    if after.len() > 0 {
        the_first_faulty_argument_is_told(before, value, after.drop_last());
        assert(all.drop_last() =~= before + seq![value] + after.drop_last());
    } else {
        assert(all.drop_last() =~= before);
        assert(all.last() == value);
    }
}

/// An application argument is passed on as it is where it is one word that can be passed and does not
/// look like an option; an empty one, one that cannot be passed, one with a space and one that
/// begins with a minus or a plus sign is refused.
pub proof fn one_plain_argument_is_passed_on(value: Seq<char>)
    ensures
        command_line(Seq::empty()) == Ok::<Option<Seq<char>>, Seq<char>>(None),
        value.len() > 0 && is_safe(value) && !value.contains(' ') && value[0] != '-' && value[0]
            != '+' ==> command_line(seq![value]) == Ok::<Option<Seq<char>>, Seq<char>>(Some(value)),
        value.len() == 0 || !is_safe(value) || value.contains(' ') || value[0] == '-' || value[0]
            == '+' ==> command_line(seq![value]) is Err,
{
    assert(joined(seq![value], " "@) == value);
    assert(seq![value].drop_last() =~= Seq::<Seq<char>>::empty());
    assert(arguments_problem(Seq::<Seq<char>>::empty()) is None);
    assert(arguments_problem(seq![value]) == argument_problem(value));
}

/// The options of a launch are the application's argument and its working directory, each as it was
/// given and only where it was.
pub proof fn launch_options_are_those_given(
    command: Option<Seq<char>>,
    directory: Option<Seq<char>>,
    option: Arg,
)
    ensures
        launch_options(command, directory).contains(option) <==> (command is Some && option
            == Arg::Valued("--command-line"@, command->0)) || (directory is Some && option
            == Arg::Valued("--working-directory"@, directory->0)),
        launch_options(command, directory).len() == (if command is Some {
            1int
        } else {
            0int
        }) + (if directory is Some {
            1int
        } else {
            0int
        }),
        launch_options_problem(command, directory) is None <==> (command is Some ==> is_safe(
            command->0,
        )) && (directory is Some ==> is_safe(directory->0)),
{
    let all = launch_options(command, directory);
    if command is Some {
        assert(all[0] == Arg::Valued("--command-line"@, command->0));
        if directory is Some {
            assert(all[1] == Arg::Valued("--working-directory"@, directory->0));
        }
    } else if directory is Some {
        assert(all[0] == Arg::Valued("--working-directory"@, directory->0));
    }
}

// ---------------------------------------------------------------------------
// Failures
// ---------------------------------------------------------------------------

/// A capture of a process that PIX did not launch is told from other failures by what `pixtool`
/// prints, in any case and in either stream; what is said then names the process.
pub proof fn processes_that_were_not_launched_are_told(
    process_id: nat,
    stdout: Seq<char>,
    stderr: Seq<char>,
    public_stdout: Seq<char>,
    public_stderr: Seq<char>,
    before: Seq<char>,
    after: Seq<char>,
)
    ensures
        ({
            let low = unicode_lower(stdout + " "@ + stderr);
            let said = gpu_capture_failure(
                process_id,
                stdout,
                stderr,
                public_stdout,
                public_stderr,
            );
            &&& (low == before + "pixtool17"@ + after || low == before
                + "not launched for gpu capture"@ + after) ==> has_part(said, decimal(process_id))
                && has_part(said, public_stdout) && has_part(said, public_stderr) && said
                != failed_text("pixtool capture"@, public_stdout, public_stderr)
            &&& !has_part(low, "pixtool17"@) && !has_part(low, "not launched for gpu capture"@)
                ==> said == failed_text("pixtool capture"@, public_stdout, public_stderr)
        }),
{
    parts_are_found_anywhere(before, "pixtool17"@, after);
    parts_are_found_anywhere(before, "not launched for gpu capture"@, after);
    let low = unicode_lower(stdout + " "@ + stderr);
    if says_not_launched(low) {
        let a = "Cannot GPU-capture PID "@;
        let b =
            ": the process was not launched under PIX (PIXTOOL17 - Process not launched for GPU Capture). PIX can only take a GPU capture of a process that PIX itself launched. Use pix_gpu_capture_launch or pix_capture_and_analyze to launch the app under PIX and capture in one step.\nstdout: "@;
        let c = "\nstderr: "@;
        let said = a + decimal(process_id) + b + public_stdout + c + public_stderr;
        parts_are_found_anywhere(a, decimal(process_id), b + public_stdout + c + public_stderr);
        assert(a + decimal(process_id) + (b + public_stdout + c + public_stderr) =~= said);
        parts_are_found_anywhere(a + decimal(process_id) + b, public_stdout, c + public_stderr);
        assert(a + decimal(process_id) + b + public_stdout + (c + public_stderr) =~= said);
        parts_are_found_anywhere(
            a + decimal(process_id) + b + public_stdout + c,
            public_stderr,
            Seq::empty(),
        );
        assert(a + decimal(process_id) + b + public_stdout + c + public_stderr
            + Seq::<char>::empty() =~= said);
        reveal_strlit("Cannot GPU-capture PID ");
        reveal_strlit("pixtool capture");
        assert(said[0] == 'C');
        assert(failed_text("pixtool capture"@, public_stdout, public_stderr)[0] == 'p');
    }
}

/// What is said of a failure holds both streams as they may be shown.
pub proof fn failures_show_both_streams(what: Seq<char>, stdout: Seq<char>, stderr: Seq<char>)
    ensures
        has_part(failed_text(what, stdout, stderr), what),
        has_part(failed_text(what, stdout, stderr), stdout),
        has_part(failed_text(what, stdout, stderr), stderr),
{
    let all = failed_text(what, stdout, stderr);
    let a = " failed:\nstderr: "@;
    let b = "\nstdout: "@;
    let none = Seq::<char>::empty();
    parts_are_found_anywhere(none, what, a + stderr + b + stdout);
    assert(none + what + (a + stderr + b + stdout) =~= all);
    parts_are_found_anywhere(what + a, stderr, b + stdout);
    assert(what + a + stderr + (b + stdout) =~= all);
    parts_are_found_anywhere(what + a + stderr + b, stdout, none);
    assert(what + a + stderr + b + stdout + none =~= all);
}

/// A launch with a capture that fails for want of Developer Mode is answered with guidance.
pub proof fn launches_ask_for_developer_mode(
    stdout: Seq<char>,
    stderr: Seq<char>,
    public_stdout: Seq<char>,
    public_stderr: Seq<char>,
    before: Seq<char>,
    after: Seq<char>,
)
    ensures
        ({
            let low = unicode_lower(stdout + "\n"@ + stderr);
            let said = gpu_capture_launch_failure(stdout, stderr, public_stdout, public_stderr);
            &&& (low == before + "developer mode"@ + after || low == before
                + "requires_developer_mode"@ + after) ==> said == developer_mode_guidance()
            &&& !has_part(low, "developer mode"@) && !has_part(low, "requires_developer_mode"@)
                ==> said == failed_text("pixtool capture"@, public_stdout, public_stderr)
        }),
{
    parts_are_found_anywhere(before, "developer mode"@, after);
    parts_are_found_anywhere(before, "requires_developer_mode"@, after);
}

/// What `pixtool` saved is a capture exactly where it is a file that holds something.
pub proof fn saved_captures_hold_something(path: Seq<char>, is_file: bool, size_bytes: u64)
    ensures
        saved_problem(path, (SavedProbe::Found { is_file, size_bytes })) is None <==> is_file
            && size_bytes > 0,
        forall|error: String|
            #[trigger] saved_problem(path, (SavedProbe::Missing { error })) is Some,
{
}

// ---------------------------------------------------------------------------
// Lists of captures
// ---------------------------------------------------------------------------

/// Whether an entry of a directory is a capture: a file whose name ends with `.wpix`, in any case.
pub open spec fn is_capture(entry: DirectoryEntry) -> bool {
    entry.is_file && names_file(entry.info.name@) && has_extension(entry.info.name@, "wpix"@)
}

/// The captures of a directory are its files whose names end with `.wpix`, in any case: all of them
/// and nothing else.
pub proof fn captures_are_the_wpix_files(entries: Seq<DirectoryEntry>)
    ensures
        captures_among(entries) == entries.filter(
            |entry: DirectoryEntry| is_capture(entry),
        ).map_values(|entry: DirectoryEntry| entry.info),
    decreases entries.len(),
{
    reveal(Seq::filter);
    let pick = |entry: DirectoryEntry| is_capture(entry);
    let info = |entry: DirectoryEntry| entry.info;
    if entries.len() > 0 {
        let head = entries.drop_last();
        captures_are_the_wpix_files(head);
        if is_capture(entries.last()) {
            assert(entries.filter(pick).map_values(info) =~= head.filter(pick).map_values(
                info,
            ).push(entries.last().info));
        }
    } else {
        assert(entries.filter(pick).map_values(info) =~= captures_among(entries));
    }
}

/// They are listed newest first; those of one time by their names in lower case, and then by their
/// names. No capture is dropped or listed twice.
pub proof fn captures_are_listed_newest_first(entries: Seq<DirectoryEntry>, i: int, j: int)
    ensures
        ({
            let found = entries.filter(|entry: DirectoryEntry| is_capture(entry)).map_values(
                |entry: DirectoryEntry| entry.info,
            );
            let listed = sorted::<NewestFirst>(captures_among(entries));
            &&& listed.to_multiset() == found.to_multiset()
            &&& 0 <= i < j < listed.len() ==> {
                let (a, b) = (listed[i], listed[j]);
                &&& b.modified is Some ==> a.modified is Some && (a.modified->0.seconds
                    > b.modified->0.seconds || (a.modified->0.seconds == b.modified->0.seconds
                    && a.modified->0.nanos >= b.modified->0.nanos))
                &&& a.modified == b.modified ==> !text_less(
                    unicode_lower(b.name@),
                    unicode_lower(a.name@),
                )
                &&& a.modified == b.modified && unicode_lower(a.name@) == unicode_lower(b.name@)
                    ==> !text_less(b.name@, a.name@)
            }
        }),
{
    captures_are_the_wpix_files(entries);
    sorted_is_an_ordered_rearrangement::<NewestFirst>(captures_among(entries));
    let listed = sorted::<NewestFirst>(captures_among(entries));
    if 0 <= i < j < listed.len() {
        assert(NewestFirst::leq(listed[i], listed[j]));
    }
}

/// A time is shown in whole seconds since the epoch, and as zero before it.
pub proof fn times_are_shown_in_seconds(time: FileTime, other: FileTime)
    ensures
        time.seconds >= 0 ==> time.seconds_or_zero() == time.seconds,
        time.seconds < 0 ==> time.seconds_or_zero() == 0,
        later(Some(time), None),
        !later(None, Some(time)),
        time.seconds > other.seconds ==> later(Some(time), Some(other)),
        time.seconds == other.seconds ==> (later(Some(time), Some(other)) <==> time.nanos
            > other.nanos),
        !(later(Some(time), Some(other)) && later(Some(other), Some(time))),
{
}

// ---------------------------------------------------------------------------
// Runs
// ---------------------------------------------------------------------------

/// A run whose slot is granted, whose process starts with both streams and ends, and whose streams
/// are then read, is finished; its tree is left alone where the process ended well.
pub proof fn complete_runs_are_finished(process_id: u32, success: bool, status: String)
    ensures
        foreground_after(
            seq![
                RunEvent::SlotGranted,
                RunEvent::Spawned {
                    process_id: Some(process_id),
                    has_stdout: true,
                    has_stderr: true,
                },
                RunEvent::Exited { success, status },
                RunEvent::StreamsRead,
            ],
        ) == (RunState::Finished { process_id, keep_tree: success }),
{
    let events = seq![
        RunEvent::SlotGranted,
        RunEvent::Spawned { process_id: Some(process_id), has_stdout: true, has_stderr: true },
        RunEvent::Exited { success, status },
        RunEvent::StreamsRead,
    ];
    let three = events.drop_last();
    let two = three.drop_last();
    let one = two.drop_last();
    assert(one.drop_last() =~= Seq::<RunEvent>::empty());
    assert(foreground_after(Seq::<RunEvent>::empty()) == RunState::Queued);
    assert(foreground_after(one) == RunState::Starting);
    assert(foreground_after(two) == (RunState::Running { process_id }));
    assert(foreground_after(three) == (RunState::Draining { process_id, success }));
}

/// A run that takes too long is stopped, and one that has failed, was stopped or is over never goes
/// on, whatever happens next.
pub proof fn runs_that_are_over_stay_over(state: RunState, event: RunEvent, process_id: u32)
    ensures
        foreground_next((RunState::Running { process_id }), RunEvent::TimedOut)
            == RunState::Stopping,
        state == RunState::Failed || state == RunState::Stopping || state is Finished
            ==> foreground_next(state, event) == RunState::Failed && background_next(state, event)
            == RunState::Failed,
        !(foreground_next(state, event) is Detached),
        foreground_next(state, event) is Finished ==> state is Draining,
{
}

/// A launch in the background that is still there after the first look goes on by itself; it is over
/// when its process ends, and is stopped when it takes too long. One whose process ends at once is
/// over where that ended well.
pub proof fn launches_go_on_in_the_background(process_id: u32, success: bool, status: String)
    ensures
        background_next((RunState::Running { process_id }), RunEvent::TimedOut)
            == (RunState::Detached { process_id }),
        background_next(
            (RunState::Detached { process_id }),
            (RunEvent::Exited { success, status }),
        ) == (RunState::Finished { process_id, keep_tree: success }),
        background_next((RunState::Detached { process_id }), RunEvent::TimedOut)
            == RunState::Stopping,
        background_next(
            (RunState::Running { process_id }),
            (RunEvent::Exited { success: true, status }),
        ) == (RunState::Finished { process_id, keep_tree: true }),
        background_next(
            (RunState::Running { process_id }),
            (RunEvent::Exited { success: false, status }),
        ) == RunState::Failed,
{
}

/// Whether an event can happen to a run in a state.
pub open spec fn can_happen(state: RunState, event: RunEvent) -> bool {
    match state {
        RunState::Queued => event is SlotGranted || event is SlotTimeout || event is SlotsClosed,
        RunState::Starting => event is Spawned || event is NotSpawned,
        RunState::Running { .. } => event is Exited || event is WaitFailed || event is TimedOut,
        RunState::Draining { .. } => event is StreamsRead || event is StreamTaskFailed
            || event is StreamUnreadable,
        _ => false,
    }
}

/// Every way in which a run can fail is told, and nothing is told of a run that goes on.
pub proof fn failures_of_runs_are_told(
    problem: Option<RunProblem>,
    state: RunState,
    event: RunEvent,
    seconds: u64,
)
    requires
        foreground_tells(problem, state, event, seconds),
        can_happen(state, event),
    ensures
        problem is Some <==> foreground_next(state, event) is Failed || foreground_next(
            state,
            event,
        ) is Stopping,
{
}

/// So is every way in which a launch in the background can fail at once.
pub proof fn failures_of_launches_are_told(
    problem: Option<RunProblem>,
    state: RunState,
    event: RunEvent,
)
    requires
        background_tells(problem, state, event),
        state is Queued && (event is SlotGranted || event is SlotsTaken) || (state is Starting && (
        event is Spawned || event is NotSpawned)) || (state is Running && (event is Exited
            || event is WaitFailed || event is TimedOut)),
    ensures
        problem is Some <==> background_next(state, event) is Failed,
{
}

} // verus!
