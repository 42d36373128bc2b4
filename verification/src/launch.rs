//! Launching applications under PIX.

use crate::capture::{normalize_wpix_output, wpix_output};
use crate::failure::Failure;
use crate::paths::is_settled;
use crate::pixtool::LaunchResult;
use crate::text::optional_text;
use vstd::prelude::*;
use vstd::string::*;

verus! {

/// A request to launch an application.
#[derive(Debug)]
pub struct LaunchArgs {
    pub exe_path: String,
    pub args: Option<Vec<String>>,
    pub working_dir: Option<String>,
}

/// A request to launch an application and capture its first frame.
#[derive(Debug)]
pub struct LaunchAndCaptureArgs {
    pub exe_path: String,
    pub args: Option<Vec<String>>,
    /// Where the capture is saved; without it the capture is opened in PIX.
    pub capture_file: Option<String>,
    pub working_dir: Option<String>,
}

/// What a request to launch an application is answered.
#[derive(Debug)]
pub struct LaunchReport {
    pub success: bool,
    /// The launcher's process, not the application's.
    pub process_id: u32,
    pub message: String,
}

/// The answer to a request to launch an application.
pub fn launch_report(result: LaunchResult) -> (r: LaunchReport)
    ensures
        r.success,
        r.process_id == result.process_id,
        r.message == result.message,
{
    LaunchReport { success: true, process_id: result.process_id, message: result.message }
}

/// Where the capture of a launch is saved, if anywhere. `is_directory` says that the path is
/// that of a directory.
pub fn launch_capture_file(capture_file: &Option<String>, is_directory: bool) -> (r: Result<
    Option<String>,
    Failure,
>)
    ensures
        match capture_file {
            None => r is Ok && r->Ok_0 is None,
            Some(raw) => is_settled(raw@) ==> match (
                r,
                wpix_output(raw@, "capture_file"@, is_directory),
            ) {
                (Ok(path), Ok(expected)) => optional_text(path) == Some(expected),
                (Err(e), Err(message)) => e.message@ == message,
                _ => false,
            },
        },
        capture_file is Some && r is Ok ==> r->Ok_0 is Some,
{
    match capture_file {
        None => Ok(None),
        Some(raw) => match normalize_wpix_output(raw, "capture_file", is_directory) {
            Ok(path) => Ok(Some(path)),
            Err(e) => Err(e),
        },
    }
}

} // verus!
