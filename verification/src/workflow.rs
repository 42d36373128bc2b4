//! Launching, capturing and summarizing in one step.

use crate::frame::FrameInsights;
use crate::paths::{has_proper_stem, is_settled, replaced_extension, with_extension};
use crate::screenshot::ScreenshotRequest;
use crate::text::{concat3, lemma_texts_push, texts};
use vstd::prelude::*;
use vstd::string::*;

verus! {

/// A request to launch an application, capture it and summarize the frame.
#[derive(Debug)]
pub struct CaptureAndAnalyzeArgs {
    pub exe_path: String,
    pub args: Option<Vec<String>>,
    pub output_path: Option<String>,
    pub working_dir: Option<String>,
    pub include_screenshot: Option<bool>,
    pub frames: Option<u32>,
}

/// What such a request is answered.
#[derive(Debug)]
pub struct CaptureAndAnalyzeReport {
    pub success: bool,
    pub capture_path: String,
    pub capture_message: String,
    pub insights: FrameInsights,
    pub screenshot_path: Option<String>,
    pub next_steps: Vec<String>,
}

/// The screenshot that goes with a capture, if one is wanted: the recorded one, next to the
/// capture, not embedded, and never in place of a file that is already there.
pub fn derived_screenshot(include_screenshot: Option<bool>, capture_path: &str) -> (r: Option<
    ScreenshotRequest,
>)
    ensures
        r is None == (include_screenshot == Some(false)),
        r matches Some(request) ==> {
            &&& request.capture_path@ == capture_path@
            &&& is_settled(capture_path@) && has_proper_stem(capture_path@)
                ==> request.output_path@ == replaced_extension(capture_path@, "png"@)
            &&& !request.depth && request.marker is None && request.global_id is None
                && request.rtv_index is None
            &&& !request.embed_image
            &&& request.max_dimension == 1280
            &&& !request.replace_existing
        },
{
    if let Some(wanted) = include_screenshot {
        if !wanted {
            return None;
        }
    }
    proof {
        reveal_strlit("png");
    }
    Some(
        ScreenshotRequest {
            capture_path: capture_path.to_string(),
            output_path: with_extension(capture_path, "png"),
            depth: false,
            marker: None,
            global_id: None,
            rtv_index: None,
            embed_image: false,
            max_dimension: 1280,
            replace_existing: false,
        },
    )
}

/// What can be done with a capture next.
pub open spec fn next_steps(capture_path: Seq<char>) -> Seq<Seq<char>> {
    seq![
        "Open in PIX GUI: pix_open_capture { capture_path: \""@ + capture_path + "\" }"@,
        "Full event list: pix_get_event_list { capture_path: \""@ + capture_path + "\" }"@,
        "Debug-layer validation: pix_run_analysis { capture_path: \""@ + capture_path + "\" }"@,
    ]
}

/// The answer to a request to launch, capture and summarize.
pub fn capture_and_analyze_report(
    capture_path: String,
    capture_message: String,
    insights: FrameInsights,
    screenshot_path: Option<String>,
) -> (r: CaptureAndAnalyzeReport)
    ensures
        r.success,
        r.capture_path == capture_path,
        r.capture_message == capture_message,
        r.insights == insights,
        r.screenshot_path == screenshot_path,
        texts(r.next_steps@) == next_steps(capture_path@),
{
    broadcast use lemma_texts_push;

    let mut steps: Vec<String> = Vec::new();
    steps.push(
        concat3("Open in PIX GUI: pix_open_capture { capture_path: \"", &capture_path, "\" }"),
    );
    steps.push(
        concat3("Full event list: pix_get_event_list { capture_path: \"", &capture_path, "\" }"),
    );
    steps.push(
        concat3(
            "Debug-layer validation: pix_run_analysis { capture_path: \"",
            &capture_path,
            "\" }",
        ),
    );
    assert(texts(steps@) =~= next_steps(capture_path@));
    CaptureAndAnalyzeReport {
        success: true,
        capture_path,
        capture_message,
        insights,
        screenshot_path,
        next_steps: steps,
    }
}

} // verus!
