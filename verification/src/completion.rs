//! What is completed: which arguments name captures, and which are only bounded.

use crate::failure::Failure;
use crate::prompts::{
    ensure_bounded, exceeds_text, MAX_PROMPT_PATH_BYTES, MAX_PROMPT_TEXT_BYTES,
};
use crate::text::{optional_text, same_text, utf8_len};
use vstd::prelude::*;
use vstd::string::*;

verus! {

/// How many bytes the name of a prompt, or a resource template, may take.
pub const MAX_COMPLETION_REFERENCE_BYTES: usize = 128;

/// What an argument is completed for.
#[derive(Debug)]
pub enum CompletionReference {
    Prompt { name: String },
    Resource { uri: String },
}

/// What an argument of a prompt holds.
#[derive(Debug, Clone, Copy, PartialEq, Eq, Structural)]
pub enum ArgumentKind {
    CaptureId,
    Path,
    Text,
}

pub open spec fn is_prompt(name: Seq<char>) -> bool {
    name == "compare_captures"@ || name == "debug_rendering_issue"@ || name == "profile_frame"@
}

/// What an argument of a prompt holds, where the prompt has it.
pub open spec fn kind_of(prompt: Seq<char>, argument: Seq<char>) -> Option<ArgumentKind> {
    if prompt == "profile_frame"@ && argument == "capture_id"@ {
        Some(ArgumentKind::CaptureId)
    } else if prompt == "compare_captures"@ && (argument == "baseline_id"@ || argument
        == "candidate_id"@) {
        Some(ArgumentKind::CaptureId)
    } else if (prompt == "profile_frame"@ || prompt == "compare_captures"@) && argument
        == "focus"@ {
        Some(ArgumentKind::Text)
    } else if prompt == "debug_rendering_issue"@ && (argument == "exe_path"@ || argument
        == "output_path"@) {
        Some(ArgumentKind::Path)
    } else if prompt == "debug_rendering_issue"@ && argument == "symptom"@ {
        Some(ArgumentKind::Text)
    } else {
        None
    }
}

fn argument_kind(prompt: &str, argument: &str) -> (r: Option<ArgumentKind>)
    ensures
        r == kind_of(prompt@, argument@),
{
    let profile = same_text(prompt, "profile_frame");
    let compare = same_text(prompt, "compare_captures");
    let debug = same_text(prompt, "debug_rendering_issue");
    if profile && same_text(argument, "capture_id") {
        Some(ArgumentKind::CaptureId)
    } else if compare && (same_text(argument, "baseline_id") || same_text(
        argument,
        "candidate_id",
    )) {
        Some(ArgumentKind::CaptureId)
    } else if (profile || compare) && same_text(argument, "focus") {
        Some(ArgumentKind::Text)
    } else if debug && (same_text(argument, "exe_path") || same_text(argument, "output_path")) {
        Some(ArgumentKind::Path)
    } else if debug && same_text(argument, "symptom") {
        Some(ArgumentKind::Text)
    } else {
        None
    }
}

/// The template of a resource that is about one capture.
pub open spec fn is_capture_template(uri: Seq<char>) -> bool {
    uri == "capture://{id}"@ || uri == "capture://{id}/metadata"@ || uri == "capture://{id}/events"@
        || uri == "capture://{id}/counters"@
}

fn capture_template(uri: &str) -> (r: bool)
    ensures
        r == is_capture_template(uri@),
{
    same_text(uri, "capture://{id}") || same_text(uri, "capture://{id}/metadata") || same_text(
        uri,
        "capture://{id}/events",
    ) || same_text(uri, "capture://{id}/counters")
}

/// How a completion goes on.
#[derive(Debug)]
pub enum CompletionStep {
    /// With the captures, without the one that `excluded` names.
    Captures { excluded: Option<String> },
    /// With nothing to offer.
    Nothing,
}

/// What is said of a reference that is too long, or unknown. It never repeats the reference.
pub open spec fn reference_problem(reference: CompletionReference) -> Option<Seq<char>> {
    let (text, is_known, otherwise) = match reference {
        CompletionReference::Prompt { name } => (
            name@,
            is_prompt(name@),
            "Unknown prompt in completion request"@,
        ),
        CompletionReference::Resource { uri } => (
            uri@,
            is_capture_template(uri@),
            "Unknown resource template in completion request"@,
        ),
    };
    if utf8_len(text) > MAX_COMPLETION_REFERENCE_BYTES {
        Some(exceeds_text("completion reference"@, MAX_COMPLETION_REFERENCE_BYTES as nat))
    } else if !is_known {
        Some(otherwise)
    } else {
        None
    }
}

fn check_reference(reference: &CompletionReference) -> (r: Result<(), Failure>)
    ensures
        match reference_problem(*reference) {
            None => r is Ok,
            Some(problem) => r is Err && r->Err_0.message@ == problem,
        },
{
    match reference {
        CompletionReference::Prompt { name } => {
            ensure_bounded(name, "completion reference", MAX_COMPLETION_REFERENCE_BYTES)?;
            if !same_text(name, "compare_captures") && !same_text(name, "debug_rendering_issue")
                && !same_text(name, "profile_frame") {
                return Err(Failure::of("Unknown prompt in completion request"));
            }
        },
        CompletionReference::Resource { uri } => {
            ensure_bounded(uri, "completion reference", MAX_COMPLETION_REFERENCE_BYTES)?;
            if !capture_template(uri) {
                return Err(Failure::of("Unknown resource template in completion request"));
            }
        },
    }
    Ok(())
}

/// The other capture of a comparison, which is not offered.
pub open spec fn other_capture(
    argument: Seq<char>,
    baseline_id: Option<Seq<char>>,
    candidate_id: Option<Seq<char>>,
) -> Option<Seq<char>> {
    if argument == "baseline_id"@ {
        candidate_id
    } else if argument == "candidate_id"@ {
        baseline_id
    } else {
        None
    }
}

fn copy_optional(text: &Option<String>) -> (r: Option<String>)
    ensures
        optional_text(r) == optional_text(*text),
{
    match text {
        Some(text) => Some(text.clone()),
        None => None,
    }
}

/// Whether `r` is how the completion of an argument of a prompt goes on.
pub open spec fn is_prompt_step(
    r: Result<CompletionStep, Failure>,
    prompt: Seq<char>,
    argument: Seq<char>,
    value: Seq<char>,
    baseline_id: Option<Seq<char>>,
    candidate_id: Option<Seq<char>>,
) -> bool {
    match kind_of(prompt, argument) {
        None => r is Err && r->Err_0.message@ == "Unknown prompt argument in completion request"@,
        Some(ArgumentKind::CaptureId) => r matches Ok(CompletionStep::Captures { excluded })
            && optional_text(excluded) == other_capture(argument, baseline_id, candidate_id),
        Some(kind) => {
            let limit = if kind == ArgumentKind::Path {
                MAX_PROMPT_PATH_BYTES
            } else {
                MAX_PROMPT_TEXT_BYTES
            };
            if utf8_len(value) > limit {
                r is Err && r->Err_0.message@ == exceeds_text(argument, limit as nat)
            } else {
                r matches Ok(CompletionStep::Nothing)
            }
        },
    }
}

/// Decides how the completion of an argument goes on. `baseline_id` and `candidate_id` are the
/// arguments of a comparison that were given before.
pub fn completion_step(
    reference: &CompletionReference,
    argument: &str,
    value: &str,
    baseline_id: &Option<String>,
    candidate_id: &Option<String>,
) -> (r: Result<CompletionStep, Failure>)
    ensures
        match reference_problem(*reference) {
            Some(problem) => r is Err && r->Err_0.message@ == problem,
            None => match reference {
                CompletionReference::Resource { .. } => if argument@ == "id"@ {
                    r matches Ok(CompletionStep::Captures { excluded }) && excluded is None
                } else {
                    r is Err && r->Err_0.message@
                        == "Unknown resource template argument in completion request"@
                },
                CompletionReference::Prompt { name } => is_prompt_step(
                    r,
                    name@,
                    argument@,
                    value@,
                    optional_text(*baseline_id),
                    optional_text(*candidate_id),
                ),
            },
        },
{
    match check_reference(reference) {
        Ok(_) => {},
        Err(e) => {
            return Err(e);
        },
    }
    let name = match reference {
        CompletionReference::Resource { .. } => {
            if !same_text(argument, "id") {
                return Err(
                    Failure::of("Unknown resource template argument in completion request"),
                );
            }
            return Ok(CompletionStep::Captures { excluded: None });
        },
        CompletionReference::Prompt { name } => name,
    };
    let limit: usize = match argument_kind(name, argument) {
        None => {
            return Err(Failure::of("Unknown prompt argument in completion request"));
        },
        Some(ArgumentKind::CaptureId) => {
            let excluded = if same_text(argument, "baseline_id") {
                copy_optional(candidate_id)
            } else if same_text(argument, "candidate_id") {
                copy_optional(baseline_id)
            } else {
                None
            };
            return Ok(CompletionStep::Captures { excluded });
        },
        Some(ArgumentKind::Path) => MAX_PROMPT_PATH_BYTES,
        Some(ArgumentKind::Text) => MAX_PROMPT_TEXT_BYTES,
    };
    match ensure_bounded(value, argument, limit) {
        Ok(_) => Ok(CompletionStep::Nothing),
        Err(e) => Err(e),
    }
}

} // verus!
