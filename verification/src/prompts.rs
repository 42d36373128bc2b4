//! Prompts for common workflows, and the completion of their arguments.

use crate::failure::Failure;
use crate::json::{json_text, quoted, quoted_text_stays_on_one_line};
use crate::numbers::{decimal, decimal_text};
use crate::order::{ascending, put_text};
use crate::paths::{
    ends_with_name, file_name, has_extension_ignore_ascii_case, is_portable, is_settled,
    is_single_name, last_name, lemma_single_name, named_file, names_file, optional_has_extension,
    stem, stem_of,
};
use crate::pixtool::CaptureInfo;
use crate::resources::{
    capture_address_leads_to_its_parts, capture_address_names_the_capture, capture_id_problem,
    capture_named, decoded_segments,
    encoded_segment_is_read_back, find_capture_by_id, find_two_captures, has_stem, name_has_stem,
    name_stem_contains, parse_capture_uri, percent_encode, percent_encoded, resource_at,
    stem_contains, CaptureFile, Resource, ResourceReadError, MAX_CAPTURE_ID_BYTES,
};
use crate::text::{
    blank, byte_len, chars_have_part, chars_of, concat3, ends_with, eq_ignoring_case, found_at,
    has_part, is_blank, is_white_space, lemma_texts_push, lower_ascii, optional_text, same_chars,
    same_ignoring_case, same_text, starts_with, sub_text, texts, to_lower_ascii, trim, trim_end,
    trim_start, trimmed, unicode_lower, utf8_len,
};
use vstd::prelude::*;
use vstd::string::*;

verus! {

pub const MAX_PROMPT_PATH_BYTES: usize = 32_768;

pub const MAX_PROMPT_TEXT_BYTES: usize = 8_192;

pub const MAX_COMPLETION_QUERY_BYTES: usize = 256;

/// How many completions are returned at most.
pub const MAX_COMPLETION_VALUES: usize = 100;

/// The arguments of the prompt to debug a rendering issue.
#[derive(Debug)]
pub struct DebugRenderingIssueArgs {
    pub exe_path: String,
    pub output_path: Option<String>,
    pub symptom: Option<String>,
}

/// The arguments of the prompt to profile a frame.
#[derive(Debug)]
pub struct ProfileFrameArgs {
    /// The file name of a capture, or its stem.
    pub capture_id: String,
    pub focus: Option<String>,
}

/// The arguments of the prompt to compare two captures.
#[derive(Debug)]
pub struct CompareCapturesPromptArgs {
    pub baseline_id: String,
    pub candidate_id: String,
    pub focus: Option<String>,
}

// ---------------------------------------------------------------------------
// Bounds
// ---------------------------------------------------------------------------

pub open spec fn exceeds_text(label: Seq<char>, max_bytes: nat) -> Seq<char> {
    label + " must not exceed "@ + decimal(max_bytes) + " UTF-8 bytes"@
}

/// Refuses a text that is too long.
pub fn ensure_bounded(value: &str, label: &str, max_bytes: usize) -> (r: Result<(), Failure>)
    ensures
        r is Err == (utf8_len(value@) > max_bytes),
        r matches Err(e) ==> e.message@ == exceeds_text(label@, max_bytes as nat),
{
    if byte_len(value) > max_bytes {
        let mut message = concat3(label, " must not exceed ", &decimal_text(max_bytes as u64));
        message.append(" UTF-8 bytes");
        return Err(Failure::new(message));
    }
    Ok(())
}

/// What is wrong with an optional text, if anything.
pub open spec fn bound_problem(value: Option<Seq<char>>, label: Seq<char>, max_bytes: nat) -> Option<
    Seq<char>,
> {
    match value {
        Some(text) => if utf8_len(text) > max_bytes {
            Some(exceeds_text(label, max_bytes))
        } else {
            None
        },
        None => None,
    }
}

fn ensure_optional_bounded(value: &Option<String>, label: &str, max_bytes: usize) -> (r: Result<
    (),
    Failure,
>)
    ensures
        match bound_problem(optional_text(*value), label@, max_bytes as nat) {
            None => r is Ok,
            Some(problem) => r is Err && r->Err_0.message@ == problem,
        },
{
    match value {
        Some(text) => ensure_bounded(text, label, max_bytes),
        None => Ok(()),
    }
}

/// Refuses a completion query that is too long.
pub fn validate_completion_query(query: &str) -> (r: Result<(), Failure>)
    ensures
        r is Err == (utf8_len(query@) > MAX_COMPLETION_QUERY_BYTES),
        r matches Err(e) ==> e.message@ == exceeds_text("completion argument value"@, 256),
{
    ensure_bounded(query, "completion argument value", MAX_COMPLETION_QUERY_BYTES)
}

// ---------------------------------------------------------------------------
// Capture identifiers
// ---------------------------------------------------------------------------

/// The address of the capture that an argument names, or what is wrong with the argument.
pub open spec fn capture_address(id: Seq<char>) -> Result<Seq<char>, Seq<char>> {
    let name = trimmed(id);
    let uri = "capture://"@ + percent_encoded(name);
    if utf8_len(id) > MAX_CAPTURE_ID_BYTES {
        Err(exceeds_text("capture_id"@, 1024))
    } else if name.len() == 0 {
        Err("capture_id must not be empty"@)
    } else if resource_at(uri) is Err {
        Err("Invalid capture_id: "@ + name)
    } else {
        Ok(uri)
    }
}

/// The address of the capture that an argument names.
pub fn capture_uri(id: &str) -> (r: Result<String, Failure>)
    ensures
        match (r, capture_address(id@)) {
            (Ok(uri), Ok(expected)) => uri@ == expected,
            (Err(e), Err(message)) => e.message@ == message,
            _ => false,
        },
{
    ensure_bounded(id, "capture_id", MAX_CAPTURE_ID_BYTES)?;
    let name = trim(id);
    if name.as_str().is_empty() {
        return Err(Failure::of("capture_id must not be empty"));
    }
    let mut uri = "capture://".to_string();
    uri.append(&percent_encode(&name));
    match parse_capture_uri(&uri) {
        Ok(_) => Ok(uri),
        Err(_) => {
            let mut message = "Invalid capture_id: ".to_string();
            message.append(&name);
            Err(Failure::new(message))
        },
    }
}

/// What is left after trimming is not blank.
proof fn lemma_trimmed_is_not_blank(s: Seq<char>)
    ensures
        trimmed(s).len() > 0 ==> !is_blank(trimmed(s)),
    decreases s.len(),
{
    let start = trim_start(s);
    lemma_trim_start_begins(s);
    if trimmed(s).len() > 0 {
        lemma_trim_end_keeps_first(start);
        assert(trimmed(s)[0] == start[0]);
        assert(!is_white_space(trimmed(s)[0]));
    }
}

proof fn lemma_trim_start_begins(s: Seq<char>)
    ensures
        trim_start(s).len() > 0 ==> !is_white_space(
            trim_start(s)[0],
        ),
    decreases s.len(),
{
    if s.len() > 0 && is_white_space(s[0]) {
        lemma_trim_start_begins(s.subrange(1, s.len() as int));
    }
}

proof fn lemma_trim_end_keeps_first(s: Seq<char>)
    ensures
        trim_end(s).len() > 0 ==> s.len() > 0 && trim_end(s)[0] == s[0],
    decreases s.len(),
{
    if s.len() > 0 && is_white_space(s.last()) {
        lemma_trim_end_keeps_first(s.drop_last());
    }
}

/// An accepted argument has the address of exactly the capture it names. The name `list` is the
/// one that has the address of the list instead.
pub proof fn accepted_argument_addresses_its_capture(id: Seq<char>)
    requires
        capture_address(id) is Ok,
        trimmed(id) != "list"@,
    ensures
        resource_at(capture_address(id)->Ok_0) == Ok::<Resource, Seq<char>>(
            Resource::Capture(trimmed(id)),
        ),
        capture_id_problem(trimmed(id)) is None,
{
    let name = trimmed(id);
    lemma_trimmed_is_not_blank(id);
    if capture_id_problem(name) is None {
        capture_address_names_the_capture(name);
    } else {
        lemma_refused_name(name);
    }
}

/// The address of an accepted argument leads on to the events, the counters and the metadata of
/// the capture that the argument names.
pub proof fn accepted_argument_leads_to_the_parts_of_its_capture(id: Seq<char>)
    requires
        capture_address(id) is Ok,
    ensures
        ({
            let uri = capture_address(id)->Ok_0;
            let name = trimmed(id);
            &&& resource_at(uri + "/events"@) == Ok::<Resource, Seq<char>>(Resource::Events(name))
            &&& resource_at(uri + "/counters"@) == Ok::<Resource, Seq<char>>(
                Resource::Counters(name),
            )
            &&& resource_at(uri + "/metadata"@) == Ok::<Resource, Seq<char>>(
                Resource::Metadata(name),
            )
        }),
{
    let name = trimmed(id);
    if name == "list"@ {
        reveal_strlit("list");
        reveal_strlit(".");
        reveal_strlit("..");
        assert(!is_white_space(name[0]));
        assert(capture_id_problem(name) is None);
    } else {
        accepted_argument_addresses_its_capture(id);
    }
    capture_address_leads_to_its_parts(name);
}

/// A name that is refused as an identifier has no address.
proof fn lemma_refused_name(name: Seq<char>)
    requires
        capture_id_problem(name) is Some,
        name.len() > 0,
        name != "list"@,
    ensures
        resource_at("capture://"@ + percent_encoded(name)) is Err,
{
    reveal_strlit("capture://");
    let uri = "capture://"@ + percent_encoded(name);
    let segment = percent_encoded(name);
    encoded_segment_is_read_back(name);
    assert(uri.skip(10) =~= segment);
    let segments = seq![segment];
    assert(segments.drop_last() =~= seq![]);
    assert(decoded_segments(segments.drop_last()) == Ok::<
        Seq<Seq<char>>,
        Seq<char>,
    >(seq![]));
    assert(decoded_segments(segments) == Ok::<Seq<Seq<char>>, Seq<char>>(
        Seq::<Seq<char>>::empty().push(name),
    ));
}

/// Refuses an argument that names no capture.
pub fn validate_capture_id_argument(id: &str) -> (r: Result<(), Failure>)
    ensures
        match capture_address(id@) {
            Ok(_) => r is Ok,
            Err(message) => r is Err && r->Err_0.message@ == message,
        },
{
    match capture_uri(id) {
        Ok(_) => Ok(()),
        Err(e) => Err(e),
    }
}

/// What two arguments must differ in to name different captures: the name up to case, without
/// the extension `.wpix`.
pub open spec fn identity_key(id: Seq<char>) -> Seq<char> {
    let name = lower_ascii(trimmed(id));
    if ends_with(name, ".wpix"@) {
        name.take(name.len() - 5)
    } else {
        name
    }
}

fn identity_chars(id: &str) -> (r: Vec<char>)
    ensures
        r@ == identity_key(id@),
{
    let mut name = to_lower_ascii(&chars_of(&trim(id)));
    let suffix = chars_of(".wpix");
    proof {
        reveal_strlit(".wpix");
    }
    if name.len() >= 5 && found_at(&name, &suffix, name.len() - 5) {
        let n: usize = name.len() - 5;
        name.truncate(n);
    }
    name
}

/// What two arguments must differ in to name different captures.
pub fn capture_identity_key(id: &str) -> (r: String)
    ensures
        r@ == identity_key(id@),
{
    let chars = identity_chars(id);
    assert(chars@.subrange(0, chars@.len() as int) =~= chars@);
    sub_text(&chars, 0, chars.len())
}

/// The identifier of the capture at `path`: its file name.
pub fn canonical_capture_id(path: &str) -> (r: Result<String, Failure>)
    ensures
        ends_with_name(path@) ==> r is Ok && ends_with(path@, r->Ok_0@) && ends_with(
            r->Ok_0@,
            last_name(path@),
        ),
        ends_with_name(path@) && is_portable(path@) ==> r is Ok && r->Ok_0@ == last_name(path@),
        !ends_with_name(path@) && is_settled(path@) ==> r is Err,
        r matches Ok(name) ==> names_file(name@) && has_part(path@, name@),
        r matches Err(e) ==> e.message@ == "Resolved capture does not have a Unicode filename"@,
{
    match file_name(path) {
        Some(name) => Ok(name),
        None => Err(Failure::of("Resolved capture does not have a Unicode filename")),
    }
}

// ---------------------------------------------------------------------------
// Arguments
// ---------------------------------------------------------------------------

/// What is wrong with the arguments of the prompt to profile a frame, if anything.
pub open spec fn profile_problem(capture_id: Seq<char>, focus: Option<Seq<char>>) -> Option<Seq<char>> {
    match capture_address(capture_id) {
        Err(message) => Some(message),
        Ok(_) => bound_problem(focus, "focus"@, MAX_PROMPT_TEXT_BYTES as nat),
    }
}

pub fn validate_profile_frame_args(args: &ProfileFrameArgs) -> (r: Result<(), Failure>)
    ensures
        match profile_problem(args.capture_id@, optional_text(args.focus)) {
            None => r is Ok,
            Some(problem) => r is Err && r->Err_0.message@ == problem,
        },
{
    validate_capture_id_argument(&args.capture_id)?;
    ensure_optional_bounded(&args.focus, "focus", MAX_PROMPT_TEXT_BYTES)
}

/// What is wrong with two identifiers to compare, if anything.
pub open spec fn distinct_problem(baseline_id: Seq<char>, candidate_id: Seq<char>) -> Option<Seq<char>> {
    match capture_address(baseline_id) {
        Err(message) => Some(message),
        Ok(_) => match capture_address(candidate_id) {
            Err(message) => Some(message),
            Ok(_) => if identity_key(baseline_id) == identity_key(candidate_id) {
                Some("baseline_id and candidate_id must identify different captures"@)
            } else {
                None
            },
        },
    }
}

/// Refuses two identifiers that do not name two captures, as far as their texts tell.
pub fn check_distinct_ids(baseline_id: &str, candidate_id: &str) -> (r: Result<(), Failure>)
    ensures
        match distinct_problem(baseline_id@, candidate_id@) {
            None => r is Ok,
            Some(problem) => r is Err && r->Err_0.message@ == problem,
        },
{
    validate_capture_id_argument(baseline_id)?;
    validate_capture_id_argument(candidate_id)?;
    if same_chars(&identity_chars(baseline_id), &identity_chars(candidate_id)) {
        return Err(
            Failure::of("baseline_id and candidate_id must identify different captures"),
        );
    }
    Ok(())
}

/// Refuses two identifiers that turned out to name the same file.
pub fn check_distinct_paths(baseline: &str, candidate: &str) -> (r: Result<(), Failure>)
    ensures
        r is Err == (baseline@ == candidate@),
        r matches Err(e) ==> e.message@
            == "baseline_id and candidate_id resolve to the same capture"@,
{
    if same_text(baseline, candidate) {
        return Err(Failure::of("baseline_id and candidate_id resolve to the same capture"));
    }
    Ok(())
}

/// Whether `r` is the identifier of the capture at `path`.
pub open spec fn is_id_at(r: Result<String, ResourceReadError>, path: Seq<char>) -> bool {
    match r {
        Ok(name) => {
            &&& names_file(name@) && has_part(path, name@)
            &&& ends_with_name(path) ==> ends_with(path, name@) && ends_with(
                name@,
                last_name(path),
            )
            &&& ends_with_name(path) && is_portable(path) ==> name@ == last_name(path)
            &&& is_settled(path) ==> ends_with_name(path)
        },
        Err(ResourceReadError::Internal(message)) => !ends_with_name(path) && message@
            == "Resolved capture does not have a Unicode filename"@,
        Err(_) => false,
    }
}

fn id_at(path: &str) -> (r: Result<String, ResourceReadError>)
    ensures
        is_id_at(r, path@),
{
    match canonical_capture_id(path) {
        Ok(name) => Ok(name),
        Err(e) => Err(ResourceReadError::Internal(e.message)),
    }
}

/// Finds the capture that an argument names among the captures of the directory, and gives its
/// identifier.
pub fn validate_profile_capture(files: Vec<CaptureFile>, id: &str) -> (r: Result<
    String,
    ResourceReadError,
>)
    ensures
        match capture_address(id@) {
            Err(problem) => r matches Err(ResourceReadError::InvalidRequest(message)) && message@
                == problem,
            Ok(_) => match capture_named(files@, trimmed(id@)) {
                Err(problem) => r matches Err(ResourceReadError::NotFound(message)) && message@
                    == problem,
                Ok(path) => is_id_at(r, path),
            },
        },
{
    match validate_capture_id_argument(id) {
        Ok(_) => {},
        Err(e) => {
            return Err(ResourceReadError::InvalidRequest(e.message));
        },
    }
    match find_capture_by_id(files, &trim(id)) {
        Ok(path) => id_at(&path),
        Err(e) => Err(ResourceReadError::NotFound(e.message)),
    }
}

/// Finds the captures that two arguments name, which must be two, and gives their identifiers.
pub fn validate_distinct_captures(
    files: Vec<CaptureFile>,
    baseline_id: &str,
    candidate_id: &str,
) -> (r: Result<(String, String), ResourceReadError>)
    ensures
        match distinct_problem(baseline_id@, candidate_id@) {
            Some(problem) => r matches Err(ResourceReadError::InvalidRequest(message)) && message@
                == problem,
            None => match (
                capture_named(files@, trimmed(baseline_id@)),
                capture_named(files@, trimmed(candidate_id@)),
            ) {
                (Err(problem), _) => r matches Err(ResourceReadError::NotFound(message))
                    && message@ == problem,
                (Ok(_), Err(problem)) => r matches Err(ResourceReadError::NotFound(message))
                    && message@ == problem,
                (Ok(a), Ok(b)) => if a == b {
                    r matches Err(ResourceReadError::InvalidRequest(message)) && message@
                        == "baseline_id and candidate_id resolve to the same capture"@
                } else {
                    match r {
                        Ok((x, y)) => is_id_at(Ok(x), a) && is_id_at(Ok(y), b),
                        Err(e) => is_id_at(Err(e), a) || is_id_at(Err(e), b),
                    }
                },
            },
        },
{
    match check_distinct_ids(baseline_id, candidate_id) {
        Ok(_) => {},
        Err(e) => {
            return Err(ResourceReadError::InvalidRequest(e.message));
        },
    }
    let (baseline, candidate) = match find_two_captures(
        files,
        &trim(baseline_id),
        &trim(candidate_id),
    ) {
        Ok(paths) => paths,
        Err(e) => {
            return Err(ResourceReadError::NotFound(e.message));
        },
    };
    match check_distinct_paths(&baseline, &candidate) {
        Ok(_) => {},
        Err(e) => {
            return Err(ResourceReadError::InvalidRequest(e.message));
        },
    }
    match id_at(&baseline) {
        Err(e) => Err(e),
        Ok(x) => match id_at(&candidate) {
            Err(e) => Err(e),
            Ok(y) => Ok((x, y)),
        },
    }
}

/// What is wrong with the arguments of the prompt to compare captures, if anything.
pub open spec fn compare_problem(
    baseline_id: Seq<char>,
    candidate_id: Seq<char>,
    focus: Option<Seq<char>>,
) -> Option<Seq<char>> {
    match distinct_problem(baseline_id, candidate_id) {
        Some(problem) => Some(problem),
        None => bound_problem(focus, "focus"@, MAX_PROMPT_TEXT_BYTES as nat),
    }
}

pub fn validate_compare_captures_args(args: &CompareCapturesPromptArgs) -> (r: Result<(), Failure>)
    ensures
        match compare_problem(args.baseline_id@, args.candidate_id@, optional_text(args.focus)) {
            None => r is Ok,
            Some(problem) => r is Err && r->Err_0.message@ == problem,
        },
{
    check_distinct_ids(&args.baseline_id, &args.candidate_id)?;
    ensure_optional_bounded(&args.focus, "focus", MAX_PROMPT_TEXT_BYTES)
}

/// What is wrong with the arguments of the prompt to debug a rendering issue, if anything.
pub open spec fn debug_problem(
    exe_path: Seq<char>,
    output_path: Option<Seq<char>>,
    symptom: Option<Seq<char>>,
) -> Option<Seq<char>> {
    if utf8_len(exe_path) > MAX_PROMPT_PATH_BYTES {
        Some(exceeds_text("exe_path"@, MAX_PROMPT_PATH_BYTES as nat))
    } else if is_blank(exe_path) {
        Some("exe_path must not be empty"@)
    } else {
        match bound_problem(output_path, "output_path"@, MAX_PROMPT_PATH_BYTES as nat) {
            Some(problem) => Some(problem),
            None => if output_path is Some && is_blank(output_path->0) {
                Some("output_path must not be empty when supplied"@)
            } else {
                bound_problem(symptom, "symptom"@, MAX_PROMPT_TEXT_BYTES as nat)
            },
        }
    }
}

// ---------------------------------------------------------------------------
// Texts
// ---------------------------------------------------------------------------

/// A value from the user as a JSON string, or what stands for a missing one. A quoted value
/// cannot add lines to a prompt.
pub open spec fn quoted_or(value: Option<Seq<char>>, otherwise: Seq<char>) -> Seq<char> {
    match value {
        Some(text) => quoted(text),
        None => otherwise,
    }
}

fn quote_or(value: &Option<String>, otherwise: &str) -> (r: String)
    ensures
        r@ == quoted_or(optional_text(*value), otherwise@),
{
    match value {
        Some(text) => json_text(text),
        None => otherwise.to_string(),
    }
}

/// The workflow that follows the values of the prompt to debug a rendering issue.
pub open spec fn debug_workflow() -> Seq<char> {
    "\n\nWorkflow:\n1. Call pix_status and stop with actionable setup guidance if capture is unavailable.\n2. Call pix_capture_and_analyze with the executable and capture destination. Prefer one frame unless the symptom requires temporal context.\n3. Inspect the structured frame summary and screenshot artifact path. When visual inspection is needed, call pix_get_screenshot with embed_image=true and a fresh PNG destination; then use bounded pix_get_event_list pages and pix_list_counters as needed.\n4. Correlate suspicious events with markers, barriers, render-target changes, and the visible symptom. Distinguish evidence from hypotheses.\n5. Return the likely causes, supporting event IDs/markers, and the smallest next experiment. Offer pix_open_capture only when interactive PIX inspection adds value.\n\nNever overwrite an existing capture and do not claim debug-layer messages that pixtool did not export."@
}

/// The prompt to debug a rendering issue.
pub open spec fn debug_text(
    exe_path: Seq<char>,
    output_path: Option<Seq<char>>,
    symptom: Option<Seq<char>>,
) -> Seq<char> {
    "Debug a DirectX 12 rendering issue with Microsoft PIX.\n\nExecutable: "@ + quoted(exe_path)
        + "\nCapture destination: "@ + quoted_or(
        output_path,
        "<ask the user or use MCP elicitation>"@,
    ) + "\nReported symptom: "@ + quoted_or(symptom, "<not supplied>"@) + debug_workflow()
}

pub fn debug_rendering_issue_text(args: DebugRenderingIssueArgs) -> (r: Result<String, Failure>)
    ensures
        match debug_problem(
            args.exe_path@,
            optional_text(args.output_path),
            optional_text(args.symptom),
        ) {
            Some(problem) => r is Err && r->Err_0.message@ == problem,
            None => r is Ok && r->Ok_0@ == debug_text(
                args.exe_path@,
                optional_text(args.output_path),
                optional_text(args.symptom),
            ),
        },
{
    ensure_bounded(&args.exe_path, "exe_path", MAX_PROMPT_PATH_BYTES)?;
    if blank(&args.exe_path) {
        return Err(Failure::of("exe_path must not be empty"));
    }
    ensure_optional_bounded(&args.output_path, "output_path", MAX_PROMPT_PATH_BYTES)?;
    if let Some(path) = &args.output_path {
        if blank(path) {
            return Err(Failure::of("output_path must not be empty when supplied"));
        }
    }
    ensure_optional_bounded(&args.symptom, "symptom", MAX_PROMPT_TEXT_BYTES)?;
    let mut text = concat3(
        "Debug a DirectX 12 rendering issue with Microsoft PIX.\n\nExecutable: ",
        &json_text(&args.exe_path),
        "\nCapture destination: ",
    );
    text.append(&quote_or(&args.output_path, "<ask the user or use MCP elicitation>"));
    text.append("\nReported symptom: ");
    text.append(&quote_or(&args.symptom, "<not supplied>"));
    text.append(
        "\n\nWorkflow:\n1. Call pix_status and stop with actionable setup guidance if capture is unavailable.\n2. Call pix_capture_and_analyze with the executable and capture destination. Prefer one frame unless the symptom requires temporal context.\n3. Inspect the structured frame summary and screenshot artifact path. When visual inspection is needed, call pix_get_screenshot with embed_image=true and a fresh PNG destination; then use bounded pix_get_event_list pages and pix_list_counters as needed.\n4. Correlate suspicious events with markers, barriers, render-target changes, and the visible symptom. Distinguish evidence from hypotheses.\n5. Return the likely causes, supporting event IDs/markers, and the smallest next experiment. Offer pix_open_capture only when interactive PIX inspection adds value.\n\nNever overwrite an existing capture and do not claim debug-layer messages that pixtool did not export.",
    );
    Ok(text)
}

/// The workflow that follows the values of the prompt to profile a frame.
pub open spec fn profile_workflow(uri: Seq<char>) -> Seq<char> {
    "\n\nWorkflow:\n1. Read "@ + uri
        + "/metadata and use its validated local path for tool calls.\n2. Call pix_analyze_frame for bounded first-pass triage.\n3. Call pix_get_event_list only for the slices needed to validate the expensive or suspicious regions.\n4. Call pix_list_counters and use available counters only; treat unavailable hardware counters as a capability limitation.\n5. Summarize hotspots by marker/queue when possible, cite Global IDs, and separate measured facts from heuristic recommendations."@
}

/// The prompt to profile a frame.
pub open spec fn profile_text(uri: Seq<char>, focus: Option<Seq<char>>) -> Seq<char> {
    "Profile the PIX GPU capture resource "@ + uri + ".\n\nFocus: "@ + quoted_or(
        focus,
        "overall frame cost and correctness"@,
    ) + profile_workflow(uri)
}

pub fn profile_frame_text(args: ProfileFrameArgs) -> (r: Result<String, Failure>)
    ensures
        match profile_problem(args.capture_id@, optional_text(args.focus)) {
            Some(problem) => r is Err && r->Err_0.message@ == problem,
            None => r is Ok && r->Ok_0@ == profile_text(
                capture_address(args.capture_id@)->Ok_0,
                optional_text(args.focus),
            ),
        },
{
    validate_profile_frame_args(&args)?;
    let uri = capture_uri(&args.capture_id)?;
    let mut text = concat3("Profile the PIX GPU capture resource ", &uri, ".\n\nFocus: ");
    text.append(&quote_or(&args.focus, "overall frame cost and correctness"));
    text.append("\n\nWorkflow:\n1. Read ");
    text.append(&uri);
    text.append(
        "/metadata and use its validated local path for tool calls.\n2. Call pix_analyze_frame for bounded first-pass triage.\n3. Call pix_get_event_list only for the slices needed to validate the expensive or suspicious regions.\n4. Call pix_list_counters and use available counters only; treat unavailable hardware counters as a capability limitation.\n5. Summarize hotspots by marker/queue when possible, cite Global IDs, and separate measured facts from heuristic recommendations.",
    );
    assert(text@ =~= profile_text(uri@, optional_text(args.focus)));
    Ok(text)
}

/// The workflow that follows the values of the prompt to compare two captures.
pub open spec fn compare_workflow() -> Seq<char> {
    "\n\nWorkflow:\n1. Read both metadata resources and verify that PIX/GPU/driver provenance is comparable when available.\n2. Call pix_compare_captures, then inspect the same bounded event-list regions and counters for each capture.\n3. Align evidence by queue, marker path, event name, and Global ID where possible; report added/removed events and material deltas.\n4. Label single-frame differences as structural or heuristic, not statistically proven regressions.\n5. Return a concise regression table, confidence limitations, and a repeatable follow-up capture plan."@
}

/// The prompt to compare two captures.
pub open spec fn compare_text(
    baseline_uri: Seq<char>,
    candidate_uri: Seq<char>,
    focus: Option<Seq<char>>,
) -> Seq<char> {
    "Compare two PIX captures without overstating statistical confidence.\n\nBaseline: "@
        + baseline_uri + "\nCandidate: "@ + candidate_uri + "\nFocus: "@ + quoted_or(
        focus,
        "frame structure and GPU performance"@,
    ) + compare_workflow()
}

pub fn compare_captures_text(args: CompareCapturesPromptArgs) -> (r: Result<String, Failure>)
    ensures
        match compare_problem(args.baseline_id@, args.candidate_id@, optional_text(args.focus)) {
            Some(problem) => r is Err && r->Err_0.message@ == problem,
            None => r is Ok && r->Ok_0@ == compare_text(
                capture_address(args.baseline_id@)->Ok_0,
                capture_address(args.candidate_id@)->Ok_0,
                optional_text(args.focus),
            ),
        },
{
    validate_compare_captures_args(&args)?;
    let baseline = capture_uri(&args.baseline_id)?;
    let candidate = capture_uri(&args.candidate_id)?;
    let mut text = concat3(
        "Compare two PIX captures without overstating statistical confidence.\n\nBaseline: ",
        &baseline,
        "\nCandidate: ",
    );
    text.append(&candidate);
    text.append("\nFocus: ");
    text.append(&quote_or(&args.focus, "frame structure and GPU performance"));
    text.append(
        "\n\nWorkflow:\n1. Read both metadata resources and verify that PIX/GPU/driver provenance is comparable when available.\n2. Call pix_compare_captures, then inspect the same bounded event-list regions and counters for each capture.\n3. Align evidence by queue, marker path, event name, and Global ID where possible; report added/removed events and material deltas.\n4. Label single-frame differences as structural or heuristic, not statistically proven regressions.\n5. Return a concise regression table, confidence limitations, and a repeatable follow-up capture plan.",
    );
    Ok(text)
}

/// A value from the user stays on the line of a prompt that it is put on.
pub proof fn user_values_stay_on_one_line(value: Seq<char>, otherwise: Seq<char>)
    ensures
        !quoted_or(Some(value), otherwise).contains('\n'),
        !quoted_or(Some(value), otherwise).contains('\r'),
{
    quoted_text_stays_on_one_line(value);
}

// ---------------------------------------------------------------------------
// Completion
// ---------------------------------------------------------------------------

/// The names of the captures.
pub open spec fn capture_names(captures: Seq<CaptureInfo>) -> Seq<Seq<char>> {
    captures.map_values(|capture: CaptureInfo| capture.name@)
}

/// The names of which the stem is exactly the one wanted.
pub open spec fn exact_names(names: Seq<Seq<char>>, wanted: Seq<char>) -> Seq<Seq<char>>
    decreases names.len(),
{
    if names.len() == 0 {
        names
    } else if has_stem(names.last(), wanted) {
        exact_names(names.drop_last(), wanted).push(names.last())
    } else {
        exact_names(names.drop_last(), wanted)
    }
}

/// The names of which the stem contains the needle.
pub open spec fn partial_names(names: Seq<Seq<char>>, needle: Seq<char>) -> Seq<Seq<char>>
    decreases names.len(),
{
    if names.len() == 0 {
        names
    } else if stem_contains(names.last(), needle) {
        partial_names(names.drop_last(), needle).push(names.last())
    } else {
        partial_names(names.drop_last(), needle)
    }
}

proof fn lemma_kept_names_are_names(names: Seq<Seq<char>>, wanted: Seq<char>, needle: Seq<char>)
    ensures
        forall|i: int|
            0 <= i < exact_names(names, wanted).len() ==> names.contains(
                #[trigger] exact_names(names, wanted)[i],
            ),
        forall|i: int|
            0 <= i < partial_names(names, needle).len() ==> names.contains(
                #[trigger] partial_names(names, needle)[i],
            ),
    decreases names.len(),
{
    if names.len() > 0 {
        let rest = names.drop_last();
        lemma_kept_names_are_names(rest, wanted, needle);
        assert(names.contains(names.last()));
        assert forall|name: Seq<char>| rest.contains(name) implies names.contains(name) by {
            let k = rest.index_of(name);
            assert(names[k] == name);
        }
        let exact = exact_names(names, wanted);
        assert forall|i: int| 0 <= i < exact.len() implies names.contains(#[trigger] exact[i]) by {
            if i < exact_names(rest, wanted).len() {
                assert(exact[i] == exact_names(rest, wanted)[i]);
            }
        }
        let partial = partial_names(names, needle);
        assert forall|i: int| 0 <= i < partial.len() implies names.contains(
            #[trigger] partial[i],
        ) by {
            if i < partial_names(rest, needle).len() {
                assert(partial[i] == partial_names(rest, needle)[i]);
            }
        }
    }
}

/// The one name that an identifier stands for, if there is one.
pub open spec fn resolved_name(names: Seq<Seq<char>>, id: Seq<char>) -> Option<Seq<char>> {
    let file = named_file(trimmed(id));
    if optional_has_extension(file, "wpix"@) {
        name_of_stem(names, stem(file->0), true)
    } else {
        name_of_stem(names, trimmed(id), false)
    }
}

/// The one name with a stem, or else, unless a file name was given, the one whose stem contains
/// it.
pub open spec fn name_of_stem(
    names: Seq<Seq<char>>,
    wanted: Seq<char>,
    file_name_given: bool,
) -> Option<Seq<char>> {
    let exact = exact_names(names, wanted);
    let partial = partial_names(names, unicode_lower(wanted));
    if exact.len() == 1 {
        Some(exact[0])
    } else if exact.len() > 1 || file_name_given {
        None
    } else if partial.len() == 1 {
        Some(partial[0])
    } else {
        None
    }
}

/// Whether every platform agrees on what an identifier asks for.
pub open spec fn is_settled_id(id: Seq<char>) -> bool {
    is_settled(id) && (is_portable(id) || !optional_has_extension(named_file(id), "wpix"@))
}

/// The name that an identifier stands for: that of the one capture with the stem, or else, unless
/// a file name was given, of the one capture whose stem contains it.
pub fn resolve_completion_name(captures: &Vec<CaptureInfo>, id: &str) -> (r: Option<String>)
    ensures
        is_settled_id(trimmed(id@)) ==> optional_text(r) == resolved_name(
            capture_names(captures@),
            id@,
        ),
        r matches Some(name) ==> capture_names(captures@).contains(name@),
{
    let id = trim(id);
    match file_name(&id) {
        Some(name) => if has_extension_ignore_ascii_case(&id, "wpix") {
            find_name_of_stem(captures, &stem_of(&name), true)
        } else {
            find_name_of_stem(captures, &id, false)
        },
        None => find_name_of_stem(captures, &id, false),
    }
}

/// The one name with a stem, or else, unless a file name was given, the one whose stem contains
/// it.
fn find_name_of_stem(captures: &Vec<CaptureInfo>, wanted: &str, file_name_given: bool) -> (r:
    Option<String>)
    ensures
        optional_text(r) == name_of_stem(capture_names(captures@), wanted@, file_name_given),
        r matches Some(name) ==> capture_names(captures@).contains(name@),
{
    broadcast use lemma_texts_push;

    let ghost names = capture_names(captures@);
    let mut exact: Vec<String> = Vec::new();
    let mut i: usize = 0;
    assert(texts(exact@) =~= exact_names(names.take(0), wanted@));
    while i < captures.len()
        invariant
            i <= captures.len(),
            names == capture_names(captures@),
            texts(exact@) == exact_names(names.take(i as int), wanted@),
        decreases captures.len() - i,
    {
        proof {
            assert(names.take(i + 1).drop_last() =~= names.take(i as int));
            assert(names.take(i + 1).last() == captures@[i as int].name@);
        }
        if name_has_stem(&captures[i].name, wanted) {
            exact.push(captures[i].name.clone());
        }
        i += 1;
    }
    assert(names.take(i as int) =~= names);
    assert(texts(exact@).len() == exact.len());
    proof {
        lemma_kept_names_are_names(names, wanted@, unicode_lower(wanted@));
    }
    if exact.len() == 1 {
        assert(texts(exact@)[0] == exact@[0]@);
        return Some(exact[0].clone());
    }
    if exact.len() > 0 || file_name_given {
        return None;
    }
    let needle = chars_of(&wanted.to_lowercase());
    let mut partial: Vec<String> = Vec::new();
    let mut j: usize = 0;
    assert(texts(partial@) =~= partial_names(names.take(0), needle@));
    while j < captures.len()
        invariant
            j <= captures.len(),
            names == capture_names(captures@),
            texts(partial@) == partial_names(names.take(j as int), needle@),
        decreases captures.len() - j,
    {
        proof {
            assert(names.take(j + 1).drop_last() =~= names.take(j as int));
            assert(names.take(j + 1).last() == captures@[j as int].name@);
        }
        if name_stem_contains(&captures[j].name, &needle) {
            partial.push(captures[j].name.clone());
        }
        j += 1;
    }
    assert(names.take(j as int) =~= names);
    assert(texts(partial@).len() == partial.len());
    if partial.len() == 1 {
        assert(texts(partial@)[0] == partial@[0]@);
        return Some(partial[0].clone());
    }
    None
}

/// Completions for an identifier.
#[derive(Debug)]
pub struct Completion {
    pub values: Vec<String>,
    pub total: u32,
    pub has_more: bool,
}

/// Whether a name is offered: it is not the excluded one, and contains the query in lower case.
pub open spec fn is_offered(name: Seq<char>, excluded: Option<Seq<char>>, query: Seq<char>) -> bool {
    &&& !(excluded is Some && same_ignoring_case(name, excluded->0))
    &&& query.len() == 0 || has_part(unicode_lower(name), query)
}

/// The offered names that start with the query, or those that do not, in order.
pub open spec fn offered(
    names: Seq<Seq<char>>,
    excluded: Option<Seq<char>>,
    query: Seq<char>,
    starting: bool,
) -> Seq<Seq<char>>
    decreases names.len(),
{
    if names.len() == 0 {
        names
    } else {
        let before = offered(names.drop_last(), excluded, query, starting);
        let name = names.last();
        if is_offered(name, excluded, query) && starts_with(unicode_lower(name), query)
            == starting {
            before.push(name)
        } else {
            before
        }
    }
}

/// The names without those that equal an earlier one in lower case.
pub open spec fn first_of_each(names: Seq<Seq<char>>) -> Seq<Seq<char>>
    decreases names.len(),
{
    if names.len() == 0 {
        names
    } else {
        let before = first_of_each(names.drop_last());
        if exists|k: int|
            0 <= k < names.len() - 1 && unicode_lower(#[trigger] names[k]) == unicode_lower(
                names.last(),
            ) {
            before
        } else {
            before.push(names.last())
        }
    }
}

/// The completions for a query in lower case: names that start with it first, each name once.
pub open spec fn completions(
    names: Seq<Seq<char>>,
    excluded: Option<Seq<char>>,
    query: Seq<char>,
) -> Seq<Seq<char>> {
    first_of_each(offered(names, excluded, query, true) + offered(names, excluded, query, false))
}

fn offer(captures: &Vec<CaptureInfo>, excluded: &Option<String>, query: &Vec<char>) -> (r: Vec<String>)
    ensures
        texts(r@) == offered(
            capture_names(captures@),
            optional_text(*excluded),
            query@,
            true,
        ) + offered(capture_names(captures@), optional_text(*excluded), query@, false),
{
    broadcast use lemma_texts_push;

    let ghost names = capture_names(captures@);
    let ghost apart = optional_text(*excluded);
    let mut first: Vec<String> = Vec::new();
    let mut second: Vec<String> = Vec::new();
    let mut i: usize = 0;
    assert(texts(first@) =~= offered(names.take(0), apart, query@, true));
    assert(texts(second@) =~= offered(names.take(0), apart, query@, false));
    while i < captures.len()
        invariant
            i <= captures.len(),
            names == capture_names(captures@),
            apart == optional_text(*excluded),
            texts(first@) == offered(names.take(i as int), apart, query@, true),
            texts(second@) == offered(names.take(i as int), apart, query@, false),
        decreases captures.len() - i,
    {
        let name = &captures[i].name;
        proof {
            assert(names.take(i + 1).drop_last() =~= names.take(i as int));
            assert(names.take(i + 1).last() == name@);
        }
        let hidden = match excluded {
            Some(other) => eq_ignoring_case(name, other),
            None => false,
        };
        let lower = chars_of(&name.to_lowercase());
        if !hidden && (query.len() == 0 || chars_have_part(&lower, query)) {
            if found_at(&lower, query, 0) {
                first.push(name.clone());
            } else {
                second.push(name.clone());
            }
        }
        i += 1;
    }
    assert(names.take(i as int) =~= names);
    let ghost a = first@;
    let ghost b = second@;
    first.append(&mut second);
    assert(texts(first@) =~= texts(a) + texts(b));
    first
}

fn keep_first_of_each(names: Vec<String>) -> (r: Vec<String>)
    ensures
        texts(r@) == first_of_each(texts(names@)),
{
    broadcast use lemma_texts_push;

    let ghost model = texts(names@);
    let mut seen: Vec<String> = Vec::new();
    let mut r: Vec<String> = Vec::new();
    let mut i: usize = 0;
    assert(texts(r@) =~= first_of_each(model.take(0)));
    while i < names.len()
        invariant
            i <= names.len(),
            model == texts(names@),
            ascending(texts(seen@)),
            forall|t: Seq<char>|
                #![trigger texts(seen@).contains(t)]
                texts(seen@).contains(t) <==> exists|k: int|
                    0 <= k < i && unicode_lower(#[trigger] model[k]) == t,
            texts(r@) == first_of_each(model.take(i as int)),
        decreases names.len() - i,
    {
        let ghost before = texts(seen@);
        let ghost now = model.take(i + 1);
        let ghost key = unicode_lower(model[i as int]);
        proof {
            assert(now.drop_last() =~= model.take(i as int));
            assert(now.last() == names@[i as int]@);
            assert(before.contains(key) <==> exists|k: int|
                0 <= k < i && unicode_lower(#[trigger] model[k]) == key);
            assert((exists|k: int|
                0 <= k < now.len() - 1 && unicode_lower(#[trigger] now[k]) == unicode_lower(
                    now.last(),
                )) <==> before.contains(key)) by {
                if before.contains(key) {
                    let k = choose|k: int|
                        0 <= k < i && unicode_lower(#[trigger] model[k]) == key;
                    assert(now[k] == model[k]);
                }
                if exists|k: int|
                    0 <= k < now.len() - 1 && unicode_lower(#[trigger] now[k]) == unicode_lower(
                        now.last(),
                    ) {
                    let k = choose|k: int|
                        0 <= k < now.len() - 1 && unicode_lower(#[trigger] now[k])
                            == unicode_lower(now.last());
                    assert(model[k] == now[k]);
                }
            }
        }
        if put_text(&mut seen, names[i].to_lowercase()) {
            r.push(names[i].clone());
        }
        assert forall|t: Seq<char>|
            #![trigger texts(seen@).contains(t)]
            texts(seen@).contains(t) <==> exists|k: int|
                0 <= k < i + 1 && unicode_lower(#[trigger] model[k]) == t by {
            assert(texts(seen@).contains(t) <==> before.contains(t) || t == key);
            if before.contains(t) {
                let k = choose|k: int| 0 <= k < i && unicode_lower(#[trigger] model[k]) == t;
                assert(unicode_lower(model[k]) == t);
            }
            if t == key {
                assert(unicode_lower(model[i as int]) == t);
            }
            if exists|k: int| 0 <= k < i + 1 && unicode_lower(#[trigger] model[k]) == t {
                let k = choose|k: int| 0 <= k < i + 1 && unicode_lower(#[trigger] model[k]) == t;
                if k < i {
                    assert(before.contains(t));
                }
            }
        }
        i += 1;
    }
    assert(model.take(i as int) =~= model);
    r
}

/// The completions for a query that is trimmed and in lower case.
pub fn complete_lower_query(
    captures: &Vec<CaptureInfo>,
    excluded: &Option<String>,
    query: &str,
) -> (r: Completion)
    ensures
        ({
            let all = completions(capture_names(captures@), optional_text(*excluded), query@);
            &&& texts(r.values@) == if all.len() > MAX_COMPLETION_VALUES {
                all.take(MAX_COMPLETION_VALUES as int)
            } else {
                all
            }
            &&& r.total == if all.len() > u32::MAX {
                u32::MAX as nat
            } else {
                all.len()
            }
            &&& r.has_more == (all.len() > MAX_COMPLETION_VALUES)
        }),
{
    let mut values = keep_first_of_each(offer(captures, excluded, &chars_of(query)));
    let ghost all = texts(values@);
    let count: usize = values.len();
    assert(all.len() == count);
    let total: u32 = if count > u32::MAX as usize {
        u32::MAX
    } else {
        count as u32
    };
    let has_more = count > MAX_COMPLETION_VALUES;
    values.truncate(MAX_COMPLETION_VALUES);
    assert(texts(values@) =~= if all.len() > MAX_COMPLETION_VALUES {
        all.take(MAX_COMPLETION_VALUES as int)
    } else {
        all
    });
    Completion { values, total, has_more }
}

/// Completes the identifier of a capture, given the captures in the order of their list. The
/// capture that `excluded` names is not offered.
pub fn complete_capture_ids(
    captures: &Vec<CaptureInfo>,
    query: &str,
    excluded: &Option<String>,
) -> (r: Result<Completion, Failure>)
    ensures
        if utf8_len(query@) > MAX_COMPLETION_QUERY_BYTES {
            r is Err && r->Err_0.message@ == exceeds_text("completion argument value"@, 256)
        } else if excluded is Some && capture_address(excluded->0@) is Err {
            r is Err && r->Err_0.message@ == capture_address(excluded->0@)->Err_0
        } else {
            let names = capture_names(captures@);
            let apart = match excluded {
                Some(id) => resolved_name(names, id@),
                None => None,
            };
            let all = completions(names, apart, unicode_lower(trimmed(query@)));
            &&& r is Ok
            &&& texts(r->Ok_0.values@) == if all.len() > MAX_COMPLETION_VALUES {
                all.take(MAX_COMPLETION_VALUES as int)
            } else {
                all
            }
            &&& r->Ok_0.total == if all.len() > u32::MAX {
                u32::MAX as nat
            } else {
                all.len()
            }
            &&& r->Ok_0.has_more == (all.len() > MAX_COMPLETION_VALUES)
        },
{
    validate_completion_query(query)?;
    let excluded_name: Option<String> = match excluded {
        Some(id) => {
            validate_capture_id_argument(id)?;
            proof {
                reveal_strlit("list");
                if trimmed(id@) != "list"@ {
                    accepted_argument_addresses_its_capture(id@);
                } else {
                    lemma_list_is_trimmed();
                }
                lemma_single_name(trimmed(id@));
            }
            resolve_completion_name(captures, id)
        },
        None => None,
    };
    let lower = trim(query).to_lowercase();
    Ok(complete_lower_query(captures, &excluded_name, &lower))
}

/// Nothing is trimmed off `list`.
proof fn lemma_list_is_trimmed()
    ensures
        trimmed("list"@) == "list"@,
        is_single_name("list"@),
{
    reveal_strlit("list");
    assert("list"@[0] == 'l');
    assert("list"@.last() == 't');
}

/// The file name of a capture and its stem name the same capture.
pub proof fn file_name_and_stem_are_one_capture(id: Seq<char>)
    requires
        trimmed(id) == id,
        id.len() > 0,
        !ends_with(lower_ascii(id), ".wpix"@),
    ensures
        identity_key(id + ".wpix"@) == identity_key(id),
{
    reveal_strlit(".wpix");
    let whole = id + ".wpix"@;
    assert(whole[0] == id[0]);
    lemma_trim_start_begins(id);
    assert(!is_white_space(id[0])) by {
        lemma_trim_shrinks(id);
    }
    assert(whole.last() == 'x');
    assert(trimmed(whole) == whole);
    let lower = lower_ascii(whole);
    assert(lower =~= lower_ascii(id) + ".wpix"@);
    assert(lower.subrange(lower.len() - 5, lower.len() as int) =~= ".wpix"@);
    assert(lower.take(lower.len() - 5) =~= lower_ascii(id));
}

/// A text that starts with white space is not its own trimmed text.
proof fn lemma_trim_shrinks(s: Seq<char>)
    ensures
        trim_start(s).len() <= s.len(),
        trim_end(s).len() <= s.len(),
        s.len() > 0 && is_white_space(s[0]) ==> trimmed(s).len() < s.len(),
    decreases s.len(),
{
    if s.len() > 0 && is_white_space(s[0]) {
        lemma_trim_shrinks(s.subrange(1, s.len() as int));
    }
    if s.len() > 0 && is_white_space(s.last()) {
        lemma_trim_shrinks(s.drop_last());
    }
    lemma_trim_end_shrinks(trim_start(s));
}

proof fn lemma_trim_end_shrinks(s: Seq<char>)
    ensures
        trim_end(s).len() <= s.len(),
    decreases s.len(),
{
    if s.len() > 0 && is_white_space(s.last()) {
        lemma_trim_end_shrinks(s.drop_last());
    }
}

} // verus!
