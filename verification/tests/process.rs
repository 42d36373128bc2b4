use pix_mcp::analysis::CommandOutput;
use pix_mcp::pixtool::{RunProblem, SavedProbe};
use pix_mcp::plans::{accept_capture, CaptureKind};
use pix_mcp::process::{background_step, foreground_step, RunEvent, RunState};

fn spawned(process_id: Option<u32>, has_stdout: bool, has_stderr: bool) -> RunEvent {
    RunEvent::Spawned { process_id, has_stdout, has_stderr }
}

fn exited(success: bool) -> RunEvent {
    RunEvent::Exited { success, status: "exit code: 3".to_string() }
}

fn told(problem: Option<RunProblem>) -> String {
    problem.expect("a problem").message("pixtool test")
}

#[test]
fn runs_keep_their_tree_only_after_success() {
    for success in [true, false] {
        let (state, problem) = foreground_step(RunState::Queued, RunEvent::SlotGranted, 60);
        assert!(problem.is_none());
        assert_eq!(state, RunState::Starting);
        let (state, _) = foreground_step(state, spawned(Some(9), true, true), 60);
        assert_eq!(state, RunState::Running { process_id: 9 });
        let (state, _) = foreground_step(state, exited(success), 60);
        assert_eq!(state, RunState::Draining { process_id: 9, success });
        let (state, problem) = foreground_step(state, RunEvent::StreamsRead, 60);
        assert!(problem.is_none());
        assert_eq!(state, RunState::Finished { process_id: 9, keep_tree: success });
    }
}

#[test]
fn runs_say_why_they_failed() {
    let error = || "boom".to_string();
    let stream = || "stderr".to_string();
    let running = RunState::Running { process_id: 9 };
    let draining = RunState::Draining { process_id: 9, success: true };
    for (state, event, text) in [
        (RunState::Queued, RunEvent::SlotTimeout, "pixtool test waited 30 seconds for a pixtool execution slot"),
        (RunState::Queued, RunEvent::SlotsClosed, "pixtool concurrency limiter is closed"),
        (RunState::Starting, RunEvent::NotSpawned { error: error() }, "Failed to start pixtool test: boom"),
        (RunState::Starting, spawned(None, true, true), "pixtool test started without a process ID"),
        (RunState::Starting, spawned(Some(1), false, false), "pixtool test stdout pipe was not available"),
        (RunState::Starting, spawned(Some(1), true, false), "pixtool test stderr pipe was not available"),
        (running, RunEvent::WaitFailed { error: error() }, "Failed while waiting for pixtool test: boom"),
        (draining, RunEvent::StreamTaskFailed { stream: stream(), error: error() }, "stderr reader task failed: boom"),
        (draining, RunEvent::StreamUnreadable { stream: stream(), error: error() }, "Failed to read pixtool stderr: boom"),
    ] {
        let (next, problem) = foreground_step(state, event, 60);
        assert_eq!(next, RunState::Failed);
        assert_eq!(told(problem), text);
    }
    let (next, problem) = foreground_step(running, RunEvent::TimedOut, 60);
    assert_eq!(next, RunState::Stopping);
    assert_eq!(told(problem), "pixtool test timed out after 60 seconds and was terminated");
    let (next, problem) = foreground_step(RunState::Queued, RunEvent::StreamsRead, 60);
    assert_eq!(next, RunState::Failed);
    assert!(problem.is_none());
}

#[test]
fn launches_go_on_in_the_background() {
    let (state, _) = background_step(RunState::Queued, RunEvent::SlotGranted);
    let (state, _) = background_step(state, spawned(Some(5), false, false));
    assert_eq!(state, RunState::Running { process_id: 5 });
    let (detached, problem) = background_step(state, RunEvent::TimedOut);
    assert!(problem.is_none());
    assert_eq!(detached, RunState::Detached { process_id: 5 });
    assert_eq!(
        background_step(detached, exited(true)).0,
        RunState::Finished { process_id: 5, keep_tree: true }
    );
    assert_eq!(
        background_step(detached, exited(false)).0,
        RunState::Finished { process_id: 5, keep_tree: false }
    );
    assert_eq!(background_step(detached, RunEvent::TimedOut).0, RunState::Stopping);
    let (state, problem) = background_step(state, exited(false));
    assert_eq!(state, RunState::Failed);
    assert_eq!(told(problem), "pixtool test exited immediately with exit code: 3");
    assert_eq!(
        told(background_step(RunState::Queued, RunEvent::SlotsTaken).1),
        "Too many background PIX launches are already running (maximum 4)"
    );
    let failed = RunEvent::WaitFailed { error: "boom".to_string() };
    assert_eq!(
        told(background_step(RunState::Running { process_id: 5 }, failed).1),
        "Failed while starting pixtool test: boom"
    );
}

#[test]
fn captures_are_accepted_after_their_command() {
    let output = |success: bool, stdout: &str| CommandOutput {
        success,
        exit_code: Some(1),
        status: "exit code: 1".to_string(),
        stdout: stdout.to_string(),
        stderr: String::new(),
        public_stdout: "shown".to_string(),
        public_stderr: "too".to_string(),
    };
    let saved = SavedProbe::Found { is_file: true, size_bytes: 4 };
    let refused = |kind, stdout: &str| {
        accept_capture(kind, &output(false, stdout), "t.wpix", &saved)
            .expect_err("the command failed")
            .to_text()
    };
    assert!(accept_capture(CaptureKind::Timing, &output(true, ""), "t.wpix", &saved).is_ok());
    assert_eq!(
        refused(CaptureKind::Startup, ""),
        "pixtool launch-and-capture failed:\nstderr: too\nstdout: shown"
    );
    assert_eq!(
        refused(CaptureKind::Timing, ""),
        "pixtool timing-capture failed:\nstderr: too\nstdout: shown"
    );
    assert_eq!(
        refused(CaptureKind::Launched, ""),
        "pixtool capture failed:\nstderr: too\nstdout: shown"
    );
    assert!(refused(CaptureKind::Launched, "Developer Mode is off")
        .starts_with("pixtool analysis requires Windows Developer Mode."));
    assert!(refused(CaptureKind::Attached { process_id: 77 }, "PIXTOOL17")
        .starts_with("Cannot GPU-capture PID 77: the process was not launched under PIX"));
    let empty = SavedProbe::Found { is_file: true, size_bytes: 0 };
    assert_eq!(
        accept_capture(CaptureKind::Launched, &output(true, ""), "t.wpix", &empty)
            .expect_err("empty")
            .to_text(),
        "pixtool did not create a non-empty capture file at t.wpix"
    );
}
