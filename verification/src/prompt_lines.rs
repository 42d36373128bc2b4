//! What the values of a prompt can change of it: the lines they stand on, and nothing else.

use crate::json::{quoted, quoted_text_stays_on_one_line};
use crate::prompts::{
    capture_address, compare_problem, compare_text, compare_workflow, debug_text, debug_workflow,
    profile_problem, profile_text, profile_workflow, quoted_or,
};
use crate::resources::{encoded_byte, encoded_bytes, percent_encoded, upper_hex};
use crate::text::{occurs_at, starts_with, trimmed};
use vstd::prelude::*;
use vstd::string::*;
use vstd::utf8::*;

verus! {

/// How many line feeds a text holds.
pub open spec fn line_feeds(s: Seq<char>) -> nat
    decreases s.len(),
{
    if s.len() == 0 {
        0
    } else {
        line_feeds(s.drop_last()) + if s.last() == '\n' {
            1nat
        } else {
            0nat
        }
    }
}

/// The heading of the workflow, with the empty line before it.
pub open spec fn workflow_heading() -> Seq<char> {
    "\n\nWorkflow:\n"@
}

/// Whether the workflow is the end of a prompt, and the heading of the workflow stands at its
/// beginning and nowhere else in the prompt.
pub open spec fn ends_with_workflow(prompt: Seq<char>, workflow: Seq<char>) -> bool {
    let at = prompt.len() - workflow.len();
    &&& at >= 0
    &&& prompt.skip(at) == workflow
    &&& forall|p: int| occurs_at(prompt, workflow_heading(), p) <==> p == at
}

// ---------------------------------------------------------------------------
// Parts of a prompt
// ---------------------------------------------------------------------------

/// Whether a part of a prompt does not end with a line feed, and no empty line in it is followed
/// by what could be the heading.
spec fn is_calm(s: Seq<char>) -> bool {
    &&& s.len() > 0
    &&& s.last() != '\n'
    &&& forall|i: int|
        0 <= i < s.len() - 1 && #[trigger] s[i] == '\n' && s[i + 1] == '\n' ==> i + 2 < s.len()
            && s[i + 2] != 'W'
}

/// Whether a text stays on its line.
spec fn is_one_line(s: Seq<char>) -> bool {
    s.len() > 0 && forall|i: int| 0 <= i < s.len() ==> #[trigger] s[i] != '\n'
}

proof fn lemma_one_line(s: Seq<char>)
    requires
        is_one_line(s),
    ensures
        is_calm(s),
        line_feeds(s) == 0,
    decreases s.len(),
{
    assert(s[s.len() - 1] != '\n');
    if s.len() > 1 {
        let head = s.drop_last();
        assert forall|i: int| 0 <= i < head.len() implies #[trigger] head[i] != '\n' by {
            assert(head[i] == s[i]);
        }
        lemma_one_line(head);
    } else {
        assert(line_feeds(s.drop_last()) == 0);
    }
}

proof fn lemma_calm_concatenation(a: Seq<char>, b: Seq<char>)
    requires
        is_calm(a),
        is_calm(b),
    ensures
        is_calm(a + b),
{
    let s = a + b;
    assert(s.last() == b.last());
    assert forall|i: int|
        0 <= i < s.len() - 1 && #[trigger] s[i] == '\n' && s[i + 1] == '\n' implies i + 2 < s.len()
        && s[i + 2] != 'W' by {
        if i < a.len() - 1 {
            assert(a[i] == s[i] && a[i + 1] == s[i + 1]);
            assert(s[i + 2] == a[i + 2]);
        } else if i == a.len() - 1 {
            assert(s[i] == a.last());
        } else {
            let k = i - a.len();
            assert(b[k] == s[i] && b[k + 1] == s[i + 1]);
            assert(s[i + 2] == b[k + 2]);
        }
    }
}

proof fn lemma_line_feeds_of_concatenation(a: Seq<char>, b: Seq<char>)
    ensures
        line_feeds(a + b) == line_feeds(a) + line_feeds(b),
    decreases b.len(),
{
    if b.len() == 0 {
        assert(a + b =~= a);
    } else {
        assert((a + b).drop_last() =~= a + b.drop_last());
        lemma_line_feeds_of_concatenation(a, b.drop_last());
    }
}

/// Behind a calm text, the heading of a workflow stands only where the workflow begins.
proof fn lemma_single_heading(values: Seq<char>, workflow: Seq<char>)
    requires
        is_calm(values),
        starts_with(workflow, workflow_heading()),
        is_calm(workflow.skip(1)),
    ensures
        ends_with_workflow(values + workflow, workflow),
{
    reveal_strlit("\n\nWorkflow:\n");
    let prompt = values + workflow;
    let at = values.len() as int;
    let heading = workflow_heading();
    assert(prompt.skip(at) =~= workflow);
    assert forall|p: int| occurs_at(prompt, heading, p) <==> p == at by {
        if p == at {
            assert(workflow.subrange(0, heading.len() as int) == heading);
            assert(prompt.subrange(p, p + heading.len()) =~= workflow.subrange(
                0,
                heading.len() as int,
            ));
        } else if occurs_at(prompt, heading, p) {
            let found = prompt.subrange(p, p + heading.len());
            assert(found[0] == '\n' && found[1] == '\n' && found[2] == 'W');
            assert(prompt[p] == '\n' && prompt[p + 1] == '\n' && prompt[p + 2] == 'W');
            if p < at - 1 {
                assert(values[p] == '\n' && values[p + 1] == '\n');
                assert(values[p + 2] == prompt[p + 2]);
            } else if p == at - 1 {
                assert(values[at - 1] == prompt[p]);
                assert(values.last() == '\n');
            } else {
                let rest = workflow.skip(1);
                let k = p - at - 1;
                assert(rest[k] == '\n' && rest[k + 1] == '\n');
                assert(rest[k + 2] == prompt[p + 2]);
            }
            assert(false);
        }
    }
}

proof fn lemma_value(value: Option<Seq<char>>, otherwise: Seq<char>)
    requires
        is_one_line(otherwise),
    ensures
        is_one_line(quoted_or(value, otherwise)),
{
    if let Some(text) = value {
        lemma_quoted(text);
    }
}

proof fn lemma_quoted(text: Seq<char>)
    ensures
        is_one_line(quoted(text)),
{
    quoted_text_stays_on_one_line(text);
    let q = quoted(text);
    assert forall|i: int| 0 <= i < q.len() implies #[trigger] q[i] != '\n' by {
        assert(q[i] >= ' ');
    }
}

proof fn lemma_encoded_bytes(bytes: Seq<u8>)
    ensures
        forall|i: int| 0 <= i < encoded_bytes(bytes).len() ==> #[trigger] encoded_bytes(bytes)[i]
            != '\n',
    decreases bytes.len(),
{
    if bytes.len() > 0 {
        let first = encoded_byte(bytes[0]);
        let rest = bytes.subrange(1, bytes.len() as int);
        lemma_encoded_bytes(rest);
        assert(upper_hex(bytes[0] as int / 16) >= '0' && upper_hex(bytes[0] as int % 16) >= '0');
        assert(forall|i: int| 0 <= i < first.len() ==> #[trigger] first[i] != '\n');
        let all = encoded_bytes(bytes);
        assert forall|i: int| 0 <= i < all.len() implies #[trigger] all[i] != '\n' by {
            if i < first.len() {
                assert(all[i] == first[i]);
            } else {
                assert(all[i] == encoded_bytes(rest)[i - first.len()]);
            }
        }
    }
}

/// The address of a capture stays on its line.
proof fn lemma_address(id: Seq<char>)
    requires
        capture_address(id) is Ok,
    ensures
        is_one_line(capture_address(id)->Ok_0),
{
    reveal_strlit("capture://");
    let encoded = percent_encoded(trimmed(id));
    lemma_encoded_bytes(encode_utf8(trimmed(id)));
    let uri = "capture://"@ + encoded;
    assert forall|i: int| 0 <= i < uri.len() implies #[trigger] uri[i] != '\n' by {
        if i >= 10 {
            assert(uri[i] == encoded[i - 10]);
        }
    }
}

// ---------------------------------------------------------------------------
// The prompt to debug a rendering issue
// ---------------------------------------------------------------------------

proof fn lemma_debug_workflow()
    ensures
        starts_with(debug_workflow(), workflow_heading()),
        is_calm(debug_workflow().skip(1)),
{
    reveal_strlit("\n\nWorkflow:\n");
    reveal_strlit(
        "\n\nWorkflow:\n1. Call pix_status and stop with actionable setup guidance if capture is unavailable.\n2. Call pix_capture_and_analyze with the executable and capture destination. Prefer one frame unless the symptom requires temporal context.\n3. Inspect the structured frame summary and screenshot artifact path. When visual inspection is needed, call pix_get_screenshot with embed_image=true and a fresh PNG destination; then use bounded pix_get_event_list pages and pix_list_counters as needed.\n4. Correlate suspicious events with markers, barriers, render-target changes, and the visible symptom. Distinguish evidence from hypotheses.\n5. Return the likely causes, supporting event IDs/markers, and the smallest next experiment. Offer pix_open_capture only when interactive PIX inspection adds value.\n\nNever overwrite an existing capture and do not claim debug-layer messages that pixtool did not export.",
    );
    let w = debug_workflow();
    assert(w.subrange(0, workflow_heading().len() as int) =~= workflow_heading());
    assert(forall|i: int|
        0 < i < w.len() - 1 && #[trigger] w[i] == '\n' && w[i + 1] == '\n' ==> i + 2 < w.len() && w[i
            + 2] != 'W');
    lemma_calm_tail(w);
}

proof fn lemma_calm_tail(w: Seq<char>)
    requires
        w.len() > 1,
        w.last() != '\n',
        forall|i: int|
            0 < i < w.len() - 1 && #[trigger] w[i] == '\n' && w[i + 1] == '\n' ==> i + 2 < w.len()
                && w[i + 2] != 'W',
    ensures
        is_calm(w.skip(1)),
{
    let s = w.skip(1);
    assert(s.last() == w.last());
    assert forall|i: int|
        0 <= i < s.len() - 1 && #[trigger] s[i] == '\n' && s[i + 1] == '\n' implies i + 2 < s.len()
        && s[i + 2] != 'W' by {
        assert(w[i + 1] == s[i] && w[i + 2] == s[i + 1]);
        assert(w[i + 3] == s[i + 2]);
    }
}

/// The prompt with its values, and how many line feeds it holds apart from them.
proof fn lemma_debug_prompt(
    exe_path: Seq<char>,
    output_path: Option<Seq<char>>,
    symptom: Option<Seq<char>>,
)
    ensures
        ends_with_workflow(debug_text(exe_path, output_path, symptom), debug_workflow()),
        line_feeds(debug_text(exe_path, output_path, symptom)) == line_feeds(
            "Debug a DirectX 12 rendering issue with Microsoft PIX.\n\nExecutable: "@,
        ) + line_feeds("\nCapture destination: "@) + line_feeds("\nReported symptom: "@)
            + line_feeds(debug_workflow()),
{
    reveal_strlit("Debug a DirectX 12 rendering issue with Microsoft PIX.\n\nExecutable: ");
    reveal_strlit("\nCapture destination: ");
    reveal_strlit("\nReported symptom: ");
    reveal_strlit("<ask the user or use MCP elicitation>");
    reveal_strlit("<not supplied>");
    let l1 = "Debug a DirectX 12 rendering issue with Microsoft PIX.\n\nExecutable: "@;
    let l2 = "\nCapture destination: "@;
    let l3 = "\nReported symptom: "@;
    let q1 = quoted(exe_path);
    let q2 = quoted_or(output_path, "<ask the user or use MCP elicitation>"@);
    let q3 = quoted_or(symptom, "<not supplied>"@);
    lemma_quoted(exe_path);
    lemma_value(output_path, "<ask the user or use MCP elicitation>"@);
    lemma_value(symptom, "<not supplied>"@);
    lemma_one_line(q1);
    lemma_one_line(q2);
    lemma_one_line(q3);
    assert(is_calm(l1) && is_calm(l2) && is_calm(l3));
    lemma_calm_concatenation(l1, q1);
    lemma_calm_concatenation(l1 + q1, l2);
    lemma_calm_concatenation(l1 + q1 + l2, q2);
    lemma_calm_concatenation(l1 + q1 + l2 + q2, l3);
    lemma_calm_concatenation(l1 + q1 + l2 + q2 + l3, q3);
    lemma_line_feeds_of_concatenation(l1, q1);
    lemma_line_feeds_of_concatenation(l1 + q1, l2);
    lemma_line_feeds_of_concatenation(l1 + q1 + l2, q2);
    lemma_line_feeds_of_concatenation(l1 + q1 + l2 + q2, l3);
    lemma_line_feeds_of_concatenation(l1 + q1 + l2 + q2 + l3, q3);
    let values = l1 + q1 + l2 + q2 + l3 + q3;
    lemma_line_feeds_of_concatenation(values, debug_workflow());
    lemma_debug_workflow();
    lemma_single_heading(values, debug_workflow());
}

/// Two prompts to debug a rendering issue have equally many lines, whatever their values, and the
/// same workflow: its heading stands in each once, with the same text from there to the end.
pub proof fn debug_values_leave_the_workflow_alone(
    exe_path: Seq<char>,
    output_path: Option<Seq<char>>,
    symptom: Option<Seq<char>>,
    other_exe_path: Seq<char>,
    other_output_path: Option<Seq<char>>,
    other_symptom: Option<Seq<char>>,
)
    ensures
        line_feeds(debug_text(exe_path, output_path, symptom)) == line_feeds(
            debug_text(other_exe_path, other_output_path, other_symptom),
        ),
        ends_with_workflow(debug_text(exe_path, output_path, symptom), debug_workflow()),
        ends_with_workflow(
            debug_text(other_exe_path, other_output_path, other_symptom),
            debug_workflow(),
        ),
{
    lemma_debug_prompt(exe_path, output_path, symptom);
    lemma_debug_prompt(other_exe_path, other_output_path, other_symptom);
}

// ---------------------------------------------------------------------------
// The prompt to profile a frame
// ---------------------------------------------------------------------------

proof fn lemma_profile_prompt(uri: Seq<char>, focus: Option<Seq<char>>)
    requires
        is_one_line(uri),
    ensures
        ends_with_workflow(profile_text(uri, focus), profile_workflow(uri)),
        line_feeds(profile_text(uri, focus)) == line_feeds(
            "Profile the PIX GPU capture resource "@,
        ) + line_feeds(".\n\nFocus: "@) + line_feeds("\n\nWorkflow:\n1. Read "@) + line_feeds(
            "/metadata and use its validated local path for tool calls.\n2. Call pix_analyze_frame for bounded first-pass triage.\n3. Call pix_get_event_list only for the slices needed to validate the expensive or suspicious regions.\n4. Call pix_list_counters and use available counters only; treat unavailable hardware counters as a capability limitation.\n5. Summarize hotspots by marker/queue when possible, cite Global IDs, and separate measured facts from heuristic recommendations."@,
        ),
{
    reveal_strlit("Profile the PIX GPU capture resource ");
    reveal_strlit(".\n\nFocus: ");
    reveal_strlit("overall frame cost and correctness");
    reveal_strlit("\n\nWorkflow:\n");
    reveal_strlit("\n\nWorkflow:\n1. Read ");
    reveal_strlit(
        "/metadata and use its validated local path for tool calls.\n2. Call pix_analyze_frame for bounded first-pass triage.\n3. Call pix_get_event_list only for the slices needed to validate the expensive or suspicious regions.\n4. Call pix_list_counters and use available counters only; treat unavailable hardware counters as a capability limitation.\n5. Summarize hotspots by marker/queue when possible, cite Global IDs, and separate measured facts from heuristic recommendations.",
    );
    let l1 = "Profile the PIX GPU capture resource "@;
    let l2 = ".\n\nFocus: "@;
    let q = quoted_or(focus, "overall frame cost and correctness"@);
    let w1 = "\n\nWorkflow:\n1. Read "@;
    let w2 =
        "/metadata and use its validated local path for tool calls.\n2. Call pix_analyze_frame for bounded first-pass triage.\n3. Call pix_get_event_list only for the slices needed to validate the expensive or suspicious regions.\n4. Call pix_list_counters and use available counters only; treat unavailable hardware counters as a capability limitation.\n5. Summarize hotspots by marker/queue when possible, cite Global IDs, and separate measured facts from heuristic recommendations."@;
    lemma_value(focus, "overall frame cost and correctness"@);
    lemma_one_line(q);
    lemma_one_line(uri);
    assert(is_calm(l1) && is_calm(l2) && is_calm(w2));
    lemma_calm_concatenation(l1, uri);
    lemma_calm_concatenation(l1 + uri, l2);
    lemma_calm_concatenation(l1 + uri + l2, q);
    let values = l1 + uri + l2 + q;
    let workflow = profile_workflow(uri);
    assert(w1.last() != '\n');
    lemma_calm_tail(w1);
    lemma_calm_concatenation(w1.skip(1), uri);
    lemma_calm_concatenation(w1.skip(1) + uri, w2);
    assert(workflow.skip(1) =~= w1.skip(1) + uri + w2);
    assert(workflow.subrange(0, workflow_heading().len() as int) =~= workflow_heading());
    lemma_single_heading(values, workflow);
    lemma_line_feeds_of_concatenation(l1, uri);
    lemma_line_feeds_of_concatenation(l1 + uri, l2);
    lemma_line_feeds_of_concatenation(l1 + uri + l2, q);
    lemma_line_feeds_of_concatenation(w1, uri);
    lemma_line_feeds_of_concatenation(w1 + uri, w2);
    lemma_line_feeds_of_concatenation(values, workflow);
}

/// Two accepted prompts to profile a frame have equally many lines, and each has one workflow, in
/// which nothing but the address of its capture depends on the values.
pub proof fn profile_values_leave_the_workflow_alone(
    capture_id: Seq<char>,
    focus: Option<Seq<char>>,
    other_capture_id: Seq<char>,
    other_focus: Option<Seq<char>>,
)
    requires
        profile_problem(capture_id, focus) is None,
        profile_problem(other_capture_id, other_focus) is None,
    ensures
        ({
            let uri = capture_address(capture_id)->Ok_0;
            let other_uri = capture_address(other_capture_id)->Ok_0;
            &&& line_feeds(profile_text(uri, focus)) == line_feeds(
                profile_text(other_uri, other_focus),
            )
            &&& ends_with_workflow(profile_text(uri, focus), profile_workflow(uri))
            &&& ends_with_workflow(
                profile_text(other_uri, other_focus),
                profile_workflow(other_uri),
            )
        }),
{
    lemma_address(capture_id);
    lemma_address(other_capture_id);
    lemma_profile_prompt(capture_address(capture_id)->Ok_0, focus);
    lemma_profile_prompt(capture_address(other_capture_id)->Ok_0, other_focus);
}

// ---------------------------------------------------------------------------
// The prompt to compare two captures
// ---------------------------------------------------------------------------

proof fn lemma_compare_workflow()
    ensures
        starts_with(compare_workflow(), workflow_heading()),
        is_calm(compare_workflow().skip(1)),
{
    reveal_strlit("\n\nWorkflow:\n");
    reveal_strlit(
        "\n\nWorkflow:\n1. Read both metadata resources and verify that PIX/GPU/driver provenance is comparable when available.\n2. Call pix_compare_captures, then inspect the same bounded event-list regions and counters for each capture.\n3. Align evidence by queue, marker path, event name, and Global ID where possible; report added/removed events and material deltas.\n4. Label single-frame differences as structural or heuristic, not statistically proven regressions.\n5. Return a concise regression table, confidence limitations, and a repeatable follow-up capture plan.",
    );
    let w = compare_workflow();
    assert(w.subrange(0, workflow_heading().len() as int) =~= workflow_heading());
    assert(forall|i: int|
        0 < i < w.len() - 1 && #[trigger] w[i] == '\n' && w[i + 1] == '\n' ==> i + 2 < w.len() && w[i
            + 2] != 'W');
    lemma_calm_tail(w);
}

proof fn lemma_compare_prompt(
    baseline_uri: Seq<char>,
    candidate_uri: Seq<char>,
    focus: Option<Seq<char>>,
)
    requires
        is_one_line(baseline_uri),
        is_one_line(candidate_uri),
    ensures
        ends_with_workflow(compare_text(baseline_uri, candidate_uri, focus), compare_workflow()),
        line_feeds(compare_text(baseline_uri, candidate_uri, focus)) == line_feeds(
            "Compare two PIX captures without overstating statistical confidence.\n\nBaseline: "@,
        ) + line_feeds("\nCandidate: "@) + line_feeds("\nFocus: "@) + line_feeds(compare_workflow()),
{
    reveal_strlit(
        "Compare two PIX captures without overstating statistical confidence.\n\nBaseline: ",
    );
    reveal_strlit("\nCandidate: ");
    reveal_strlit("\nFocus: ");
    reveal_strlit("frame structure and GPU performance");
    let l1 = "Compare two PIX captures without overstating statistical confidence.\n\nBaseline: "@;
    let l2 = "\nCandidate: "@;
    let l3 = "\nFocus: "@;
    let q = quoted_or(focus, "frame structure and GPU performance"@);
    lemma_value(focus, "frame structure and GPU performance"@);
    lemma_one_line(q);
    lemma_one_line(baseline_uri);
    lemma_one_line(candidate_uri);
    assert(is_calm(l1) && is_calm(l2) && is_calm(l3));
    lemma_calm_concatenation(l1, baseline_uri);
    lemma_calm_concatenation(l1 + baseline_uri, l2);
    lemma_calm_concatenation(l1 + baseline_uri + l2, candidate_uri);
    lemma_calm_concatenation(l1 + baseline_uri + l2 + candidate_uri, l3);
    lemma_calm_concatenation(l1 + baseline_uri + l2 + candidate_uri + l3, q);
    lemma_line_feeds_of_concatenation(l1, baseline_uri);
    lemma_line_feeds_of_concatenation(l1 + baseline_uri, l2);
    lemma_line_feeds_of_concatenation(l1 + baseline_uri + l2, candidate_uri);
    lemma_line_feeds_of_concatenation(l1 + baseline_uri + l2 + candidate_uri, l3);
    lemma_line_feeds_of_concatenation(l1 + baseline_uri + l2 + candidate_uri + l3, q);
    let values = l1 + baseline_uri + l2 + candidate_uri + l3 + q;
    lemma_line_feeds_of_concatenation(values, compare_workflow());
    lemma_compare_workflow();
    lemma_single_heading(values, compare_workflow());
}

/// Two accepted prompts to compare captures have equally many lines, and the same workflow: its
/// heading stands in each once, with the same text from there to the end.
pub proof fn compare_values_leave_the_workflow_alone(
    baseline_id: Seq<char>,
    candidate_id: Seq<char>,
    focus: Option<Seq<char>>,
    other_baseline_id: Seq<char>,
    other_candidate_id: Seq<char>,
    other_focus: Option<Seq<char>>,
)
    requires
        compare_problem(baseline_id, candidate_id, focus) is None,
        compare_problem(other_baseline_id, other_candidate_id, other_focus) is None,
    ensures
        ({
            let prompt = compare_text(
                capture_address(baseline_id)->Ok_0,
                capture_address(candidate_id)->Ok_0,
                focus,
            );
            let other = compare_text(
                capture_address(other_baseline_id)->Ok_0,
                capture_address(other_candidate_id)->Ok_0,
                other_focus,
            );
            &&& line_feeds(prompt) == line_feeds(other)
            &&& ends_with_workflow(prompt, compare_workflow())
            &&& ends_with_workflow(other, compare_workflow())
        }),
{
    lemma_address(baseline_id);
    lemma_address(candidate_id);
    lemma_address(other_baseline_id);
    lemma_address(other_candidate_id);
    lemma_compare_prompt(
        capture_address(baseline_id)->Ok_0,
        capture_address(candidate_id)->Ok_0,
        focus,
    );
    lemma_compare_prompt(
        capture_address(other_baseline_id)->Ok_0,
        capture_address(other_candidate_id)->Ok_0,
        other_focus,
    );
}

} // verus!
